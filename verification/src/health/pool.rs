//! The endpoint pool of one chain: rotation, health bookkeeping and the
//! active roster.
//!
//! At most five endpoints are active (receive traffic); the others wait in
//! a reserve queue, the "rpc house". A demoted endpoint joins the back of
//! the queue and the front of the queue takes its place.
use crate::config::{
    clone_endpoints, EndpointConfig, EndpointView, HealthConfig, HedgeConfig, RotationStrategy,
    ChainConfig,
};
use crate::health::state::{
    failed_before, snapshot_of, EndpointHealth, EndpointHealthSnapshot, HealthState, RosterStatus,
};
use crate::text::{find_char, prefix_string, str_eq};
use rand::seq::SliceRandom;
use std::collections::VecDeque;
use vstd::arithmetic::div_mod::{lemma_fundamental_div_mod, lemma_mod_multiples_vanish, lemma_small_mod};
use vstd::multiset::Multiset;
use vstd::prelude::*;
use vstd::seq_lib::{group_to_multiset_ensures, lemma_multiset_commutative, to_multiset_contains};
use vstd::string::*;

verus! {

broadcast use group_to_multiset_ensures;

/// Number of endpoints that receive traffic at any time.
pub const ACTIVE_SET_SIZE: usize = 5;

/// `rand`'s `SliceRandom::shuffle` with the thread-local generator: the
/// slice is permuted in place (the source only swaps elements); which
/// permutation comes out is left open.
#[verifier::external_body]
fn shuffle_indices(v: &mut Vec<usize>)
    ensures
        final(v)@.to_multiset() == old(v)@.to_multiset(),
{
    v.shuffle(&mut rand::thread_rng());
}

/// The indices `0..n` as a multiset.
pub open spec fn index_multiset(n: nat) -> Multiset<usize> {
    Seq::new(n, |i: int| i as usize).to_multiset()
}

/// The size of the active set for `n` endpoints.
pub open spec fn active_size(n: nat) -> nat {
    if n < ACTIVE_SET_SIZE {
        n
    } else {
        ACTIVE_SET_SIZE as nat
    }
}

/// The active set and the reserve queue together hold every index below
/// `n` exactly once, and the active set has its full size.
pub open spec fn roster_ok(active: Seq<usize>, house: Seq<usize>, n: nat) -> bool {
    &&& (active + house).to_multiset() == index_multiset(n)
    &&& active.len() == active_size(n)
}

/// The sum of the weights of `eps`.
pub open spec fn weight_sum(eps: Seq<EndpointView>) -> nat
    decreases eps.len(),
{
    if eps.len() == 0 {
        0
    } else {
        weight_sum(eps.drop_last()) + eps.last().weight as nat
    }
}

/// The pool as plain values.
pub struct PoolView {
    pub name: Seq<char>,
    pub endpoints: Seq<EndpointView>,
    pub health: Seq<HealthState>,
    pub counter: usize,
    pub health_config: HealthConfig,
    pub rotation: RotationStrategy,
    pub chain_id: Option<u64>,
    pub hedge_config: Option<HedgeConfig>,
    pub total_weight: u32,
    pub active: Seq<usize>,
    pub house: Seq<usize>,
}

impl PoolView {
    /// The number of endpoints.
    pub open spec fn len(self) -> nat {
        self.endpoints.len()
    }

    /// The weight of endpoint `i`.
    pub open spec fn weight(self, i: usize) -> nat {
        self.endpoints[i as int].weight as nat
    }

    /// The same pool with other health records.
    pub open spec fn with_health(self, health: Seq<HealthState>) -> PoolView {
        PoolView { health, ..self }
    }
}

/// Health, active set and reserve queue of a pool.
#[derive(Debug)]
struct Roster {
    active: Vec<usize>,
    house: VecDeque<usize>,
}

/// The endpoint pool of one chain.
#[derive(Debug)]
pub struct ChainPool {
    name: String,
    endpoints: Vec<EndpointConfig>,
    counter: usize,
    health: Vec<EndpointHealth>,
    health_config: HealthConfig,
    rotation: RotationStrategy,
    chain_id: Option<u64>,
    hedge_config: Option<HedgeConfig>,
    total_weight: u32,
    roster: Roster,
}

/// The status of one endpoint for reporting.
#[derive(Debug)]
pub struct EndpointStatus {
    pub url: String,
    pub weight: u32,
    pub is_healthy: bool,
    pub is_throttled: bool,
    pub consecutive_failures: u32,
    pub block_height: Option<u64>,
    pub last_latency_ms: Option<u64>,
    pub request_count: u64,
    pub success_count: u64,
    pub failure_count: u64,
    pub throttle_count: u64,
    pub roster_status: RosterStatus,
}

// ---------------------------------------------------------------------------
// Selection as plain functions
// ---------------------------------------------------------------------------

/// Round-robin scan: from position `start`, the first endpoint of `el` that
/// is not excluded and available; with the health records after the checks.
pub open spec fn rr_scan(
    hs: Seq<HealthState>,
    el: Seq<usize>,
    ex: Seq<usize>,
    start: int,
    i: int,
    now_ms: u64,
) -> (Option<usize>, Seq<HealthState>)
    decreases el.len() - i,
{
    if i < 0 || i >= el.len() {
        (None, hs)
    } else {
        let idx = el[(start + i) % (el.len() as int)];
        if ex.contains(idx) {
            rr_scan(hs, el, ex, start, i + 1, now_ms)
        } else {
            let avail = hs[idx as int].available_at(now_ms);
            let hs2 = hs.update(idx as int, hs[idx as int].after_availability_check(now_ms));
            if avail {
                (Some(idx), hs2)
            } else {
                rr_scan(hs2, el, ex, start, i + 1, now_ms)
            }
        }
    }
}

/// The least recently failed endpoint among the first `k` of `el` that are
/// not excluded; on a tie the earlier one.
pub open spec fn least_recently_failed_in(
    hs: Seq<HealthState>,
    el: Seq<usize>,
    ex: Seq<usize>,
    k: int,
) -> Option<usize>
    decreases k,
{
    if k <= 0 {
        None
    } else {
        let prev = least_recently_failed_in(hs, el, ex, k - 1);
        let idx = el[k - 1];
        if ex.contains(idx) {
            prev
        } else {
            match prev {
                None => Some(idx),
                Some(b) => if failed_before(hs[idx as int].last_failure, hs[b as int].last_failure) {
                    Some(idx)
                } else {
                    Some(b)
                },
            }
        }
    }
}

/// The summed weight of the first `k` of `el` that are not excluded and
/// pass `healthy_only` (when set, only hard-healthy ones count).
pub open spec fn eligible_weight(
    eps: Seq<EndpointView>,
    hs: Seq<HealthState>,
    el: Seq<usize>,
    ex: Seq<usize>,
    k: int,
    healthy_only: bool,
) -> nat
    decreases k,
{
    if k <= 0 {
        0
    } else {
        let idx = el[k - 1];
        eligible_weight(eps, hs, el, ex, k - 1, healthy_only) + if !ex.contains(idx) && (!healthy_only
            || hs[idx as int].is_healthy) {
            eps[idx as int].weight as nat
        } else {
            0
        }
    }
}

/// Weighted scan: walks `el`, adding the weights of available, not excluded
/// endpoints, and stops at the first whose running total passes `target`.
pub open spec fn weighted_scan(
    eps: Seq<EndpointView>,
    hs: Seq<HealthState>,
    el: Seq<usize>,
    ex: Seq<usize>,
    target: int,
    i: int,
    cum: int,
    now_ms: u64,
) -> (Option<usize>, Seq<HealthState>)
    decreases el.len() - i,
{
    if i < 0 || i >= el.len() {
        (None, hs)
    } else {
        let idx = el[i];
        if ex.contains(idx) {
            weighted_scan(eps, hs, el, ex, target, i + 1, cum, now_ms)
        } else {
            let avail = hs[idx as int].available_at(now_ms);
            let hs2 = hs.update(idx as int, hs[idx as int].after_availability_check(now_ms));
            if !avail {
                weighted_scan(eps, hs2, el, ex, target, i + 1, cum, now_ms)
            } else {
                let c = cum + eps[idx as int].weight;
                if target < c {
                    (Some(idx), hs2)
                } else {
                    weighted_scan(eps, hs2, el, ex, target, i + 1, c, now_ms)
                }
            }
        }
    }
}

/// What selecting from `el` (minus `ex`) at `now_ms` picks, and the health
/// records and rotation counter afterwards.
pub open spec fn select_from(p: PoolView, el: Seq<usize>, ex: Seq<usize>, now_ms: u64) -> (
    Option<usize>,
    Seq<HealthState>,
    usize,
) {
    let next_counter = vstd::wrapping::usize_specs::wrapping_add(p.counter, 1);
    if el.len() == 0 {
        (None, p.health, p.counter)
    } else if p.rotation == RotationStrategy::RoundRobin {
        let (pick, hs) = rr_scan(p.health, el, ex, p.counter as int, 0, now_ms);
        match pick {
            Some(i) => (Some(i), hs, next_counter),
            None => (least_recently_failed_in(p.health, el, ex, el.len() as int), p.health, next_counter),
        }
    } else {
        let hw = eligible_weight(p.endpoints, p.health, el, ex, el.len() as int, true);
        if hw == 0 {
            (least_recently_failed_in(p.health, el, ex, el.len() as int), p.health, p.counter)
        } else {
            let target = ((p.counter as u32) as int) % (hw as int);
            let (pick, hs) = weighted_scan(p.endpoints, p.health, el, ex, target, 0, 0, now_ms);
            match pick {
                Some(i) => (Some(i), hs, next_counter),
                None => (least_recently_failed_in(hs, el, ex, el.len() as int), hs, next_counter),
            }
        }
    }
}

/// Endpoint `i` is active and lists `method` among its methods.
pub open spec fn claims(p: PoolView, method: Seq<char>, i: usize) -> bool {
    &&& p.active.contains(i)
    &&& match p.endpoints[i as int].methods {
        Some(m) => exists|j: int| 0 <= j < m.len() && (#[trigger] m[j])@ == method,
        None => false,
    }
}

/// Endpoint `i` is active and has no method list.
pub open spec fn unconstrained(p: PoolView, i: usize) -> bool {
    p.active.contains(i) && p.endpoints[i as int].methods is None
}

/// The endpoints below `k` that claim `method`, in increasing order.
pub open spec fn claimed_upto(p: PoolView, method: Seq<char>, k: int) -> Seq<usize>
    decreases k,
{
    if k <= 0 {
        Seq::empty()
    } else if claims(p, method, (k - 1) as usize) {
        claimed_upto(p, method, k - 1).push((k - 1) as usize)
    } else {
        claimed_upto(p, method, k - 1)
    }
}

/// The endpoints below `k` that are unconstrained, in increasing order.
pub open spec fn unconstrained_upto(p: PoolView, k: int) -> Seq<usize>
    decreases k,
{
    if k <= 0 {
        Seq::empty()
    } else if unconstrained(p, (k - 1) as usize) {
        unconstrained_upto(p, k - 1).push((k - 1) as usize)
    } else {
        unconstrained_upto(p, k - 1)
    }
}

/// The endpoints that may serve `method`: those that claim it, or, when
/// none does, those without a method list; active endpoints only.
pub open spec fn eligible_for(p: PoolView, method: Seq<char>) -> Seq<usize> {
    let claimed = claimed_upto(p, method, p.len() as int);
    if claimed.len() > 0 {
        claimed
    } else {
        unconstrained_upto(p, p.len() as int)
    }
}

/// The first position below `k` of a `?` in `s`.
pub open spec fn first_query_mark(s: Seq<char>, k: int) -> Option<int>
    decreases k,
{
    if k <= 0 {
        None
    } else {
        match first_query_mark(s, k - 1) {
            Some(i) => Some(i),
            None => if s[k - 1] == '?' {
                Some(k - 1)
            } else {
                None
            },
        }
    }
}

/// `url` with its query string, if any, replaced by `?...`.
pub open spec fn redacted(url: Seq<char>) -> Seq<char> {
    match first_query_mark(url, url.len() as int) {
        Some(i) => url.subrange(0, i) + "?..."@,
        None => url,
    }
}

/// How many of `idxs` are available at `now_ms`.
pub open spec fn count_available(hs: Seq<HealthState>, idxs: Seq<usize>, now_ms: u64) -> nat
    decreases idxs.len(),
{
    if idxs.len() == 0 {
        0
    } else {
        count_available(hs, idxs.drop_last(), now_ms) + if hs[idxs.last() as int].available_at(
            now_ms,
        ) {
            1nat
        } else {
            0nat
        }
    }
}

/// The health records after an availability check of each of `idxs`.
pub open spec fn checked(hs: Seq<HealthState>, idxs: Seq<usize>, now_ms: u64) -> Seq<HealthState> {
    Seq::new(
        hs.len(),
        |i: int|
            if idxs.contains(i as usize) {
                hs[i].after_availability_check(now_ms)
            } else {
                hs[i]
            },
    )
}

/// The name of a rotation strategy as reported.
pub open spec fn rotation_label(r: RotationStrategy) -> Seq<char> {
    match r {
        RotationStrategy::RoundRobin => "round_robin"@,
        RotationStrategy::Weighted => "weighted"@,
        RotationStrategy::Latency => "latency"@,
    }
}

// ---------------------------------------------------------------------------
// Lemmas
// ---------------------------------------------------------------------------

proof fn lemma_index_multiset(n: nat, x: usize)
    requires
        n <= usize::MAX,
    ensures
        index_multiset(n).count(x) == if x < n { 1nat } else { 0nat },
    decreases n,
{
    broadcast use vstd::multiset::group_multiset_axioms;

    let s = Seq::new(n, |i: int| i as usize);
    if n > 0 {
        let t = Seq::new((n - 1) as nat, |i: int| i as usize);
        assert(s.drop_last() =~= t);
        lemma_index_multiset((n - 1) as nat, x);
        assert(s =~= t.push((n - 1) as usize));
        assert(s.to_multiset() =~= t.to_multiset().insert((n - 1) as usize));
    } else {
        assert(s.to_multiset() =~= Multiset::empty());
    }
}

/// The roster holds exactly the indices below `n`, each once.
proof fn lemma_roster_members(active: Seq<usize>, house: Seq<usize>, n: nat)
    requires
        n <= usize::MAX,
        (active + house).to_multiset() == index_multiset(n),
    ensures
        forall|x: usize| #![trigger (active + house).contains(x)] (active + house).contains(x)
            <==> x < n,
        (active + house).no_duplicates(),
        forall|x: usize| active.contains(x) ==> x < n && !house.contains(x),
        forall|x: usize| house.contains(x) ==> x < n,
        active.no_duplicates(),
{
    let all = active + house;
    assert forall|x: usize| #![trigger all.contains(x)] all.contains(x) <==> x < n by {
        to_multiset_contains(all, x);
        lemma_index_multiset(n, x);
    }
    assert forall|x: usize| all.to_multiset().contains(x) implies all.to_multiset().count(x)
        == 1 by {
        lemma_index_multiset(n, x);
    }
    all.lemma_multiset_has_no_duplicates_conv();
    assert forall|x: usize| active.contains(x) implies x < n && !house.contains(x) by {
        let i = choose|i: int| 0 <= i < active.len() && active[i] == x;
        assert(all[i] == x);
        assert(all.contains(x));
        if house.contains(x) {
            let j = choose|j: int| 0 <= j < house.len() && house[j] == x;
            assert(all[active.len() + j] == x);
        }
    }
    assert forall|x: usize| house.contains(x) implies x < n by {
        let j = choose|j: int| 0 <= j < house.len() && house[j] == x;
        assert(all[active.len() + j] == x);
        assert(all.contains(x));
    }
    assert forall|i: int, j: int| 0 <= i < active.len() && 0 <= j < active.len() && i != j implies active[i]
        != active[j] by {
        assert(all[i] == active[i]);
        assert(all[j] == active[j]);
    }
}

proof fn lemma_eligible_weight_monotone(
    eps: Seq<EndpointView>,
    hs: Seq<HealthState>,
    el: Seq<usize>,
    ex: Seq<usize>,
    j: int,
    k: int,
    healthy_only: bool,
)
    requires
        0 <= j <= k,
    ensures
        eligible_weight(eps, hs, el, ex, j, healthy_only) <= eligible_weight(eps, hs, el, ex, k, healthy_only),
    decreases k - j,
{
    if j < k {
        lemma_eligible_weight_monotone(eps, hs, el, ex, j, k - 1, healthy_only);
    }
}

proof fn lemma_healthy_weight_bounded(
    eps: Seq<EndpointView>,
    hs: Seq<HealthState>,
    el: Seq<usize>,
    ex: Seq<usize>,
    k: int,
)
    ensures
        eligible_weight(eps, hs, el, ex, k, true) <= eligible_weight(eps, hs, el, ex, k, false),
    decreases k,
{
    if k > 0 {
        lemma_healthy_weight_bounded(eps, hs, el, ex, k - 1);
    }
}

proof fn lemma_checked_unavailable(s: HealthState, now_ms: u64)
    requires
        !s.available_at(now_ms),
    ensures
        s.after_availability_check(now_ms) == s,
{
}

// ---------------------------------------------------------------------------
// The pool
// ---------------------------------------------------------------------------

impl View for ChainPool {
    type V = PoolView;

    closed spec fn view(&self) -> PoolView {
        PoolView {
            name: self.name@,
            endpoints: self.endpoints.deep_view(),
            health: self.health@.map_values(|h: EndpointHealth| h@),
            counter: self.counter,
            health_config: self.health_config,
            rotation: self.rotation,
            chain_id: self.chain_id,
            hedge_config: self.hedge_config,
            total_weight: self.total_weight,
            active: self.roster.active@,
            house: self.roster.house@,
        }
    }
}

impl ChainPool {
    #[verifier::type_invariant]
    spec fn inv(self) -> bool {
        &&& self.health@.len() == self.endpoints@.len()
        &&& self.endpoints@.len() <= usize::MAX
        &&& roster_ok(self.roster.active@, self.roster.house@, self.endpoints@.len())
        &&& self.total_weight == weight_sum(self.endpoints.deep_view())
    }

    /// What every pool keeps: one health record per endpoint, a roster that
    /// holds each endpoint once, and the total weight.
    pub open spec fn pool_ok(p: PoolView) -> bool {
        &&& p.health.len() == p.endpoints.len()
        &&& p.endpoints.len() <= usize::MAX
        &&& roster_ok(p.active, p.house, p.endpoints.len())
        &&& p.total_weight == weight_sum(p.endpoints)
    }

    proof fn lemma_view_ok(&self)
        requires
            self.inv(),
        ensures
            Self::pool_ok(self@),
            forall|x: usize| self@.active.contains(x) ==> x < self@.len(),
            forall|x: usize| self@.house.contains(x) ==> x < self@.len(),
            forall|x: usize| #![trigger (self@.active + self@.house).contains(x)] (self@.active + self@.house).contains(x) <==> x < self@.len(),
            self@.active.no_duplicates(),
    {
        assert(self.health@.map_values(|h: EndpointHealth| h@).len() == self.health@.len());
        lemma_roster_members(self.roster.active@, self.roster.house@, self.endpoints@.len());
    }

    /// Builds the pool of a chain: one fresh health record per endpoint, and
    /// a random choice of up to five active endpoints, the others in reserve.
    pub fn new(config: &ChainConfig) -> (r: Self)
        requires
            weight_sum(config.endpoints.deep_view()) <= u32::MAX,
        ensures
            Self::pool_ok(r@),
            r@.name == config.name@,
            r@.endpoints == config.endpoints.deep_view(),
            forall|i: int| 0 <= i < r@.len() ==> r@.health[i] == HealthState::initial(),
            r@.counter == 0,
            r@.health_config == config.health,
            r@.rotation == config.rotation,
            r@.chain_id == config.chain_id,
            r@.hedge_config == config.hedge,
            r@.active.len() == active_size(config.endpoints@.len()),
    {
        let n = config.endpoints.len();
        let mut health: Vec<EndpointHealth> = Vec::new();
        let mut total_weight: u32 = 0;
        let mut i: usize = 0;
        let ghost eps = config.endpoints.deep_view();
        while i < n
            invariant
                n == config.endpoints@.len(),
                eps == config.endpoints.deep_view(),
                weight_sum(eps) <= u32::MAX,
                i <= n,
                health@.len() == i,
                forall|k: int| 0 <= k < i ==> (#[trigger] health@[k])@ == HealthState::initial(),
                total_weight == weight_sum(eps.subrange(0, i as int)),
            decreases n - i,
        {
            health.push(EndpointHealth::new());
            proof {
                assert(eps.subrange(0, i + 1).drop_last() =~= eps.subrange(0, i as int));
                lemma_weight_sum_prefix(eps, i + 1);
            }
            total_weight = total_weight + config.endpoints[i].weight;
            i = i + 1;
        }
        assert(eps.subrange(0, n as int) =~= eps);
        let mut all: Vec<usize> = Vec::new();
        let mut j: usize = 0;
        while j < n
            invariant
                j <= n,
                all@ == Seq::new(j as nat, |k: int| k as usize),
            decreases n - j,
        {
            all.push(j);
            j = j + 1;
            assert(all@ =~= Seq::new(j as nat, |k: int| k as usize));
        }
        let ghost before = all@;
        shuffle_indices(&mut all);
        proof {
            vstd::seq_lib::to_multiset_len(before);
            vstd::seq_lib::to_multiset_len(all@);
        }
        let active_size = if n < ACTIVE_SET_SIZE { n } else { ACTIVE_SET_SIZE };
        let mut active: Vec<usize> = Vec::new();
        let mut house: VecDeque<usize> = VecDeque::new();
        let mut k: usize = 0;
        while k < n
            invariant
                n == all@.len(),
                active_size <= n,
                k <= n,
                k <= active_size ==> active@ == all@.subrange(0, k as int) && house@.len() == 0,
                k > active_size ==> active@ == all@.subrange(0, active_size as int) && house@
                    == all@.subrange(active_size as int, k as int),
            decreases n - k,
        {
            if k < active_size {
                active.push(all[k]);
            } else {
                house.push_back(all[k]);
            }
            k = k + 1;
            assert(active@ =~= all@.subrange(0, if k <= active_size { k as int } else { active_size as int }));
            if k > active_size {
                assert(house@ =~= all@.subrange(active_size as int, k as int));
            }
        }
        proof {
            if n <= active_size {
                assert(active@ + house@ =~= all@);
            } else {
                assert(active@ + house@ =~= all@);
            }
        }
        ChainPool {
            name: config.name.clone(),
            endpoints: clone_endpoints(&config.endpoints),
            counter: 0,
            health,
            health_config: config.health.clone(),
            rotation: config.rotation,
            chain_id: config.chain_id,
            hedge_config: config.hedge,
            total_weight,
            roster: Roster { active, house },
        }
    }

    /// The chain name.
    pub fn name(&self) -> (r: &String)
        ensures
            r@ == self@.name,
    {
        &self.name
    }

    /// The configured endpoints.
    pub fn endpoints(&self) -> (r: &Vec<EndpointConfig>)
        ensures
            r.deep_view() == self@.endpoints,
    {
        &self.endpoints
    }

    /// The number of endpoints; every pool keeps `pool_ok`.
    pub fn len(&self) -> (r: usize)
        ensures
            r == self@.len(),
            Self::pool_ok(self@),
    {
        proof {
            use_type_invariant(self);
            self.lemma_view_ok();
        }
        self.endpoints.len()
    }

    /// The health policy of the chain.
    pub fn health_config(&self) -> (r: &HealthConfig)
        ensures
            *r == self@.health_config,
    {
        &self.health_config
    }

    /// The rotation strategy.
    pub fn rotation(&self) -> (r: RotationStrategy)
        ensures
            r == self@.rotation,
    {
        self.rotation
    }

    /// The chain id, if any.
    pub fn chain_id(&self) -> (r: Option<u64>)
        ensures
            r == self@.chain_id,
    {
        self.chain_id
    }

    /// The hedging policy, if any.
    pub fn hedge_config(&self) -> (r: Option<HedgeConfig>)
        ensures
            r == self@.hedge_config,
    {
        self.hedge_config
    }

    /// Precomputed total weight for weighted rotation.
    pub fn total_weight(&self) -> (r: u32)
        ensures
            r == self@.total_weight,
            r == weight_sum(self@.endpoints),
    {
        proof {
            use_type_invariant(self);
        }
        self.total_weight
    }

    /// The active endpoints, in roster order.
    pub fn active_indices(&self) -> (r: Vec<usize>)
        ensures
            r@ == self@.active,
    {
        self.roster.active.clone()
    }

    /// The reserve queue, front first.
    pub fn rpc_house(&self) -> (r: Vec<usize>)
        ensures
            r@ == self@.house,
    {
        let mut r: Vec<usize> = Vec::new();
        let mut i: usize = 0;
        while i < self.roster.house.len()
            invariant
                i <= self.roster.house@.len(),
                r@ == self.roster.house@.subrange(0, i as int),
            decreases self.roster.house@.len() - i,
        {
            r.push(self.roster.house[i]);
            i = i + 1;
            assert(r@ =~= self.roster.house@.subrange(0, i as int));
        }
        assert(r@ =~= self.roster.house@);
        r
    }

    /// The health record of endpoint `idx`.
    pub fn health_state(&self, idx: usize) -> (r: HealthState)
        requires
            idx < self@.len(),
        ensures
            r == self@.health[idx as int],
            r.wf(),
    {
        proof {
            use_type_invariant(self);
        }
        self.health[idx].state()
    }

    /// The URL of endpoint `idx`.
    pub fn endpoint_url(&self, idx: usize) -> (r: String)
        requires
            idx < self@.len(),
        ensures
            r@ == self@.endpoints[idx as int].url,
    {
        self.endpoints[idx].url.clone()
    }
}


/// The weight of the endpoints whose index is in `sel`.
pub open spec fn selected_weight(eps: Seq<EndpointView>, sel: Set<usize>) -> nat
    decreases eps.len(),
{
    if eps.len() == 0 {
        0
    } else {
        selected_weight(eps.drop_last(), sel) + if sel.contains((eps.len() - 1) as usize) {
            eps.last().weight as nat
        } else {
            0
        }
    }
}

/// The not excluded members of the first `k` of `el`.
pub open spec fn chosen_set(el: Seq<usize>, ex: Seq<usize>, k: int) -> Set<usize> {
    Set::new(|x: usize| exists|j: int| 0 <= j < k && el[j] == x && !ex.contains(x))
}

proof fn lemma_selected_weight_bounded(eps: Seq<EndpointView>, sel: Set<usize>)
    ensures
        selected_weight(eps, sel) <= weight_sum(eps),
    decreases eps.len(),
{
    if eps.len() > 0 {
        lemma_selected_weight_bounded(eps.drop_last(), sel);
    }
}

proof fn lemma_selected_weight_insert(eps: Seq<EndpointView>, sel: Set<usize>, x: usize)
    requires
        !sel.contains(x),
        x < eps.len(),
        eps.len() <= usize::MAX,
    ensures
        selected_weight(eps, sel.insert(x)) == selected_weight(eps, sel) + eps[x as int].weight,
    decreases eps.len(),
{
    if eps.len() - 1 != x {
        lemma_selected_weight_insert(eps.drop_last(), sel, x);
        assert(eps.drop_last()[x as int] == eps[x as int]);
    } else {
        lemma_selected_weight_out_of_range(eps.drop_last(), sel.insert(x), sel, x);
    }
}

proof fn lemma_selected_weight_out_of_range(
    eps: Seq<EndpointView>,
    a: Set<usize>,
    b: Set<usize>,
    x: usize,
)
    requires
        forall|y: usize| y != x ==> (a.contains(y) <==> b.contains(y)),
        x >= eps.len(),
    ensures
        selected_weight(eps, a) == selected_weight(eps, b),
    decreases eps.len(),
{
    if eps.len() > 0 {
        lemma_selected_weight_out_of_range(eps.drop_last(), a, b, x);
    }
}

/// With no repeated index, the endpoints chosen from `el` weigh no more
/// than all endpoints together.
pub proof fn lemma_eligible_weight_bounded(p: PoolView, el: Seq<usize>, ex: Seq<usize>)
    requires
        el.no_duplicates(),
        forall|j: int| 0 <= j < el.len() ==> (#[trigger] el[j]) < p.len(),
        p.len() <= usize::MAX,
    ensures
        eligible_weight(p.endpoints, p.health, el, ex, el.len() as int, false) <= weight_sum(p.endpoints),
{
    lemma_eligible_weight_is_selected(p, el, ex, el.len() as int);
    lemma_selected_weight_bounded(p.endpoints, chosen_set(el, ex, el.len() as int));
}

proof fn lemma_eligible_weight_is_selected(p: PoolView, el: Seq<usize>, ex: Seq<usize>, k: int)
    requires
        0 <= k <= el.len(),
        el.no_duplicates(),
        forall|j: int| 0 <= j < el.len() ==> (#[trigger] el[j]) < p.len(),
        p.len() <= usize::MAX,
    ensures
        eligible_weight(p.endpoints, p.health, el, ex, k, false) == selected_weight(p.endpoints, chosen_set(el, ex, k)),
    decreases k,
{
    if k == 0 {
        assert(chosen_set(el, ex, 0) =~= Set::empty());
        lemma_selected_weight_empty(p.endpoints);
    } else {
        lemma_eligible_weight_is_selected(p, el, ex, k - 1);
        let x = el[k - 1];
        if ex.contains(x) {
            assert(chosen_set(el, ex, k) =~= chosen_set(el, ex, k - 1));
        } else {
            assert(chosen_set(el, ex, k) =~= chosen_set(el, ex, k - 1).insert(x));
            assert(!chosen_set(el, ex, k - 1).contains(x));
            lemma_selected_weight_insert(p.endpoints, chosen_set(el, ex, k - 1), x);
        }
    }
}

proof fn lemma_selected_weight_empty(eps: Seq<EndpointView>)
    ensures
        selected_weight(eps, Set::empty()) == 0,
    decreases eps.len(),
{
    if eps.len() > 0 {
        lemma_selected_weight_empty(eps.drop_last());
    }
}

/// Whether `x` occurs in `s`.
pub fn contains_index(s: &[usize], x: usize) -> (r: bool)
    ensures
        r == s@.contains(x),
{
    let mut i: usize = 0;
    while i < s.len()
        invariant
            i <= s@.len(),
            forall|k: int| 0 <= k < i ==> s@[k] != x,
        decreases s@.len() - i,
    {
        if s[i] == x {
            assert(s@[i as int] == x);
            return true;
        }
        i = i + 1;
    }
    false
}

/// `el` only names endpoints of the pool where it is not excluded.
pub open spec fn names_endpoints(p: PoolView, el: Seq<usize>, ex: Seq<usize>) -> bool {
    forall|j: int| 0 <= j < el.len() && !ex.contains(el[j]) ==> (#[trigger] el[j]) < p.len()
}

/// The selection is defined: not by latency, and weighted sums fit 32 bits.
pub open spec fn selectable(p: PoolView, el: Seq<usize>, ex: Seq<usize>) -> bool {
    &&& p.rotation != RotationStrategy::Latency
    &&& names_endpoints(p, el, ex)
    &&& (p.rotation == RotationStrategy::Weighted ==> eligible_weight(p.endpoints, p.health, el, ex, el.len() as int, false) <= u32::MAX)
}

/// Available, not excluded members of `el`, in order, and the health
/// records after the availability checks.
pub open spec fn available_scan(
    hs: Seq<HealthState>,
    el: Seq<usize>,
    ex: Seq<usize>,
    k: int,
    now_ms: u64,
) -> (Seq<usize>, Seq<HealthState>)
    decreases k,
{
    if k <= 0 {
        (Seq::empty(), hs)
    } else {
        let (prev, hs1) = available_scan(hs, el, ex, k - 1, now_ms);
        let idx = el[k - 1];
        if ex.contains(idx) {
            (prev, hs1)
        } else {
            let hs2 = hs1.update(idx as int, hs1[idx as int].after_availability_check(now_ms));
            if hs1[idx as int].available_at(now_ms) {
                (prev.push(idx), hs2)
            } else {
                (prev, hs2)
            }
        }
    }
}

impl ChainPool {
    proof fn lemma_health_update(&self, old_pool: PoolView, idx: usize, s: HealthState)
        requires
            self.health@.len() == old_pool.health.len(),
            idx < self.health@.len(),
            self.health@[idx as int]@ == s,
            forall|j: int| 0 <= j < self.health@.len() && j != idx ==> (#[trigger] self.health@[j])@ == old_pool.health[j],
        ensures
            self.health@.map_values(|h: EndpointHealth| h@) == old_pool.health.update(idx as int, s),
    {
        assert(self.health@.map_values(|h: EndpointHealth| h@) =~= old_pool.health.update(idx as int, s));
    }

    /// The least recently failed endpoint of `eligible` that is not excluded.
    pub fn least_recently_failed(&self, eligible: &[usize], exclude: &[usize]) -> (r: Option<usize>)
        requires
            names_endpoints(self@, eligible@, exclude@),
        ensures
            r == least_recently_failed_in(self@.health, eligible@, exclude@, eligible@.len() as int),
    {
        proof {
            use_type_invariant(self);
        }
        let mut best: Option<usize> = None;
        let mut k: usize = 0;
        while k < eligible.len()
            invariant
                self.health@.len() == self@.len(),
                self@.health == self.health@.map_values(|h: EndpointHealth| h@),
                names_endpoints(self@, eligible@, exclude@),
                k <= eligible@.len(),
                best == least_recently_failed_in(self@.health, eligible@, exclude@, k as int),
                forall|b: usize| best == Some(b) ==> b < self@.len(),
            decreases eligible@.len() - k,
        {
            let idx = eligible[k];
            if !contains_index(exclude, idx) {
                match best {
                    None => {
                        best = Some(idx);
                    },
                    Some(prev) => {
                        if self.health[idx].failed_earlier_than(&self.health[prev]) {
                            best = Some(idx);
                        }
                    },
                }
            }
            k = k + 1;
        }
        best
    }

    /// Advances the rotation counter and returns its previous value.
    pub fn bump_counter(&mut self) -> (r: usize)
        ensures
            r == old(self)@.counter,
            final(self)@ == (PoolView {
                counter: vstd::wrapping::usize_specs::wrapping_add(old(self)@.counter, 1),
                ..old(self)@
            }),
    {
        proof {
            use_type_invariant(&*self);
        }
        let c = self.counter;
        self.counter = c.wrapping_add(1);
        c
    }

    /// The members of `candidates` that are not excluded and available at
    /// `now_ms`, in order; each check may end a cooldown.
    pub fn latency_candidates(&mut self, candidates: &[usize], exclude: &[usize], now_ms: u64) -> (r: Vec<usize>)
        requires
            names_endpoints(old(self)@, candidates@, exclude@),
        ensures
            (r@, final(self)@.health) == available_scan(
                old(self)@.health,
                candidates@,
                exclude@,
                candidates@.len() as int,
                now_ms,
            ),
            final(self)@ == old(self)@.with_health(final(self)@.health),
    {
        proof {
            use_type_invariant(&*self);
        }
        let ghost p0 = self@;
        let mut r: Vec<usize> = Vec::new();
        let mut k: usize = 0;
        while k < candidates.len()
            invariant
                self.health@.len() == p0.len(),
                p0.health.len() == p0.len(),
                names_endpoints(p0, candidates@, exclude@),
                self@ == p0.with_health(self@.health),
                k <= candidates@.len(),
                (r@, self@.health) == available_scan(p0.health, candidates@, exclude@, k as int, now_ms),
            decreases candidates@.len() - k,
        {
            proof {
                use_type_invariant(&*self);
            }
            let idx = candidates[k];
            if !contains_index(exclude, idx) {
                let ghost before = self@.health;
                let avail = self.health[idx].is_available(now_ms);
                proof {
                    self.lemma_health_update(p0.with_health(before), idx, before[idx as int].after_availability_check(now_ms));
                }
                if avail {
                    r.push(idx);
                }
            }
            k = k + 1;
        }
        r
    }
}


proof fn lemma_rr_position(start: int, i: int, len: int)
    requires
        len > 0,
        0 <= i < len,
        0 <= start,
    ensures
        (start + i) % len == if start % len + i < len {
            start % len + i
        } else {
            start % len + i - len
        },
{
    vstd::arithmetic::div_mod::lemma_add_mod_noop(start, i, len);
    vstd::arithmetic::div_mod::lemma_small_mod(i as nat, len as nat);
    vstd::arithmetic::div_mod::lemma_mod_bound(start, len);
    let b = start % len;
    if b + i < len {
        vstd::arithmetic::div_mod::lemma_small_mod((b + i) as nat, len as nat);
    } else {
        vstd::arithmetic::div_mod::lemma_mod_add_multiples_vanish(b + i - len, len);
        vstd::arithmetic::div_mod::lemma_small_mod((b + i - len) as nat, len as nat);
    }
}

impl ChainPool {
    fn rr_first_available(&mut self, eligible: &[usize], exclude: &[usize], start: usize, now_ms: u64) -> (r: Option<usize>)
        requires
            eligible@.len() > 0,
            names_endpoints(old(self)@, eligible@, exclude@),
        ensures
            (r, final(self)@.health) == rr_scan(old(self)@.health, eligible@, exclude@, start as int, 0, now_ms),
            final(self)@ == old(self)@.with_health(final(self)@.health),
            r matches Some(i) ==> i < old(self)@.len(),
    {
        proof {
            use_type_invariant(&*self);
        }
        let ghost p0 = self@;
        let len = eligible.len();
        let base = start % len;
        let mut i: usize = 0;
        while i < len
            invariant
                len == eligible@.len(),
                len > 0,
                base == start % len,
                self.health@.len() == p0.len(),
                p0.health.len() == p0.len(),
                names_endpoints(p0, eligible@, exclude@),
                self@ == p0,
                p0 == old(self)@,
                i <= len,
                rr_scan(p0.health, eligible@, exclude@, start as int, 0, now_ms) == rr_scan(
                    p0.health,
                    eligible@,
                    exclude@,
                    start as int,
                    i as int,
                    now_ms,
                ),
            decreases len - i,
        {
            proof {
                use_type_invariant(&*self);
                lemma_rr_position(start as int, i as int, len as int);
            }
            let pos = if i < len - base { base + i } else { i - (len - base) };
            let idx = eligible[pos];
            if !contains_index(exclude, idx) {
                let ghost before = self@.health;
                let avail = self.health[idx].is_available(now_ms);
                proof {
                    self.lemma_health_update(p0, idx, before[idx as int].after_availability_check(now_ms));
                }
                if avail {
                    return Some(idx);
                }
                proof {
                    lemma_checked_unavailable(before[idx as int], now_ms);
                    assert(before.update(idx as int, before[idx as int]) =~= before);
                }
            }
            i = i + 1;
        }
        None
    }

    fn healthy_weight(&self, eligible: &[usize], exclude: &[usize]) -> (r: u32)
        requires
            names_endpoints(self@, eligible@, exclude@),
            eligible_weight(self@.endpoints, self@.health, eligible@, exclude@, eligible@.len() as int, false) <= u32::MAX,
        ensures
            r == eligible_weight(self@.endpoints, self@.health, eligible@, exclude@, eligible@.len() as int, true),
    {
        proof {
            use_type_invariant(self);
        }
        let mut sum: u32 = 0;
        let mut k: usize = 0;
        while k < eligible.len()
            invariant
                self.health@.len() == self@.len(),
                self@.health == self.health@.map_values(|h: EndpointHealth| h@),
                self@.endpoints == self.endpoints.deep_view(),
                names_endpoints(self@, eligible@, exclude@),
                eligible_weight(self@.endpoints, self@.health, eligible@, exclude@, eligible@.len() as int, false) <= u32::MAX,
                k <= eligible@.len(),
                sum == eligible_weight(self@.endpoints, self@.health, eligible@, exclude@, k as int, true),
            decreases eligible@.len() - k,
        {
            proof {
                lemma_healthy_weight_bounded(self@.endpoints, self@.health, eligible@, exclude@, k + 1);
                lemma_eligible_weight_monotone(self@.endpoints, self@.health, eligible@, exclude@, k + 1, eligible@.len() as int, false);
            }
            let idx = eligible[k];
            if !contains_index(exclude, idx) && self.health[idx].is_healthy() {
                sum = sum + self.endpoints[idx].weight;
            }
            k = k + 1;
        }
        sum
    }

    fn weighted_pick(&mut self, eligible: &[usize], exclude: &[usize], target: u32, now_ms: u64) -> (r: Option<usize>)
        requires
            names_endpoints(old(self)@, eligible@, exclude@),
            eligible_weight(old(self)@.endpoints, old(self)@.health, eligible@, exclude@, eligible@.len() as int, false) <= u32::MAX,
        ensures
            (r, final(self)@.health) == weighted_scan(
                old(self)@.endpoints,
                old(self)@.health,
                eligible@,
                exclude@,
                target as int,
                0,
                0,
                now_ms,
            ),
            final(self)@ == old(self)@.with_health(final(self)@.health),
            r matches Some(i) ==> i < old(self)@.len(),
    {
        proof {
            use_type_invariant(&*self);
        }
        let ghost p0 = self@;
        let mut cum: u32 = 0;
        let mut k: usize = 0;
        while k < eligible.len()
            invariant
                self.health@.len() == p0.len(),
                p0.health.len() == p0.len(),
                self.endpoints.deep_view() == p0.endpoints,
                names_endpoints(p0, eligible@, exclude@),
                eligible_weight(p0.endpoints, p0.health, eligible@, exclude@, eligible@.len() as int, false) <= u32::MAX,
                self@ == p0.with_health(self@.health),
                p0 == old(self)@,
                k <= eligible@.len(),
                cum <= eligible_weight(p0.endpoints, p0.health, eligible@, exclude@, k as int, false),
                weighted_scan(p0.endpoints, p0.health, eligible@, exclude@, target as int, 0, 0, now_ms)
                    == weighted_scan(p0.endpoints, self@.health, eligible@, exclude@, target as int, k as int, cum as int, now_ms),
            decreases eligible@.len() - k,
        {
            proof {
                use_type_invariant(&*self);
                lemma_eligible_weight_monotone(p0.endpoints, p0.health, eligible@, exclude@, k + 1, eligible@.len() as int, false);
            }
            let idx = eligible[k];
            if !contains_index(exclude, idx) {
                let ghost before = self@.health;
                let avail = self.health[idx].is_available(now_ms);
                proof {
                    self.lemma_health_update(p0.with_health(before), idx, before[idx as int].after_availability_check(now_ms));
                }
                if avail {
                    cum = cum + self.endpoints[idx].weight;
                    if target < cum {
                        return Some(idx);
                    }
                }
            }
            k = k + 1;
        }
        None
    }

    /// Select the next endpoint from `eligible`, skipping `exclude`.
    ///
    /// Round robin walks the eligible set from the rotation counter and takes
    /// the first available endpoint; weighted rotation picks by the counter
    /// modulo the weight of the hard-healthy endpoints. When no endpoint
    /// qualifies (or the weighted walk finds none available), the least
    /// recently failed one is taken; `None` only when every eligible endpoint
    /// is excluded.
    /// Latency rotation weighs floating-point latencies and is not chosen here.
    pub fn next_endpoint_from_eligible(&mut self, eligible: &[usize], exclude: &[usize], now_ms: u64) -> (r: Option<(usize, String)>)
        requires
            selectable(old(self)@, eligible@, exclude@),
        ensures
            ({
                let (pick, hs, c) = select_from(old(self)@, eligible@, exclude@, now_ms);
                &&& final(self)@ == (PoolView { health: hs, counter: c, ..old(self)@ })
                &&& match pick {
                    Some(i) => r matches Some((j, u)) && j == i && i < old(self)@.len() && u@
                        == old(self)@.endpoints[i as int].url,
                    None => r is None,
                }
            }),
            r matches Some((i, _)) ==> eligible@.contains(i) && !exclude@.contains(i),
            r is None <==> all_excluded(eligible@, exclude@),
    {
        proof {
            use_type_invariant(&*self);
            lemma_selection_respects_exclusion(self@, eligible@, exclude@, now_ms);
            lemma_selection_none_iff_all_excluded(self@, eligible@, exclude@, now_ms);
        }
        let ghost p0 = self@;
        let len = eligible.len();
        if len == 0 {
            return None;
        }
        if self.rotation == RotationStrategy::RoundRobin {
            let start = self.counter;
            self.counter = start.wrapping_add(1);
            match self.rr_first_available(eligible, exclude, start, now_ms) {
                Some(idx) => {
                    return Some((idx, self.endpoints[idx].url.clone()));
                },
                None => {},
            }
            proof {
                lemma_rr_scan_none(p0.health, eligible@, exclude@, start as int, 0, now_ms);
            }
            match self.least_recently_failed(eligible, exclude) {
                Some(idx) => {
                    proof {
                        lemma_lrf_member(p0.health, eligible@, exclude@, len as int);
                    }
                    Some((idx, self.endpoints[idx].url.clone()))
                },
                None => None,
            }
        } else {
            let hw = self.healthy_weight(eligible, exclude);
            if hw == 0 {
                return match self.least_recently_failed(eligible, exclude) {
                    Some(idx) => {
                        proof {
                            lemma_lrf_member(p0.health, eligible@, exclude@, len as int);
                        }
                        Some((idx, self.endpoints[idx].url.clone()))
                    },
                    None => None,
                };
            }
            let tick = self.counter as u32;
            self.counter = self.counter.wrapping_add(1);
            let target = tick % hw;
            match self.weighted_pick(eligible, exclude, target, now_ms) {
                Some(idx) => Some((idx, self.endpoints[idx].url.clone())),
                None => {
                    let ghost hs = self@.health;
                    match self.least_recently_failed(eligible, exclude) {
                        Some(idx) => {
                            proof {
                                lemma_lrf_member(hs, eligible@, exclude@, len as int);
                            }
                            Some((idx, self.endpoints[idx].url.clone()))
                        },
                        None => None,
                    }
                },
            }
        }
    }
}

proof fn lemma_rr_scan_none(
    hs: Seq<HealthState>,
    el: Seq<usize>,
    ex: Seq<usize>,
    start: int,
    i: int,
    now_ms: u64,
)
    requires
        forall|j: int| 0 <= j < el.len() && !ex.contains(el[j]) ==> (#[trigger] el[j]) < hs.len(),
    ensures
        rr_scan(hs, el, ex, start, i, now_ms).0 is None ==> rr_scan(hs, el, ex, start, i, now_ms).1
            == hs,
    decreases el.len() - i,
{
    if 0 <= i < el.len() {
        let idx = el[(start + i) % (el.len() as int)];
        if !ex.contains(idx) && !hs[idx as int].available_at(now_ms) {
            lemma_checked_unavailable(hs[idx as int], now_ms);
            assert(hs.update(idx as int, hs[idx as int]) =~= hs);
        }
        lemma_rr_scan_none(hs, el, ex, start, i + 1, now_ms);
    }
}

proof fn lemma_lrf_member(hs: Seq<HealthState>, el: Seq<usize>, ex: Seq<usize>, k: int)
    requires
        0 <= k <= el.len(),
    ensures
        least_recently_failed_in(hs, el, ex, k) matches Some(i) ==> exists|j: int|
            0 <= j < k && el[j] == i && !ex.contains(i),
    decreases k,
{
    if k > 0 {
        lemma_lrf_member(hs, el, ex, k - 1);
    }
}

proof fn lemma_rr_scan_member(
    hs: Seq<HealthState>,
    el: Seq<usize>,
    ex: Seq<usize>,
    start: int,
    i: int,
    now_ms: u64,
)
    ensures
        rr_scan(hs, el, ex, start, i, now_ms).0 matches Some(x) ==> el.contains(x) && !ex.contains(x),
    decreases el.len() - i,
{
    if 0 <= i < el.len() {
        let k = (start + i) % (el.len() as int);
        let idx = el[k];
        assert(el.contains(idx));
        let hs2 = hs.update(idx as int, hs[idx as int].after_availability_check(now_ms));
        lemma_rr_scan_member(hs, el, ex, start, i + 1, now_ms);
        lemma_rr_scan_member(hs2, el, ex, start, i + 1, now_ms);
    }
}

proof fn lemma_weighted_scan_member(
    eps: Seq<EndpointView>,
    hs: Seq<HealthState>,
    el: Seq<usize>,
    ex: Seq<usize>,
    target: int,
    i: int,
    cum: int,
    now_ms: u64,
)
    ensures
        weighted_scan(eps, hs, el, ex, target, i, cum, now_ms).0 matches Some(x) ==> el.contains(x)
            && !ex.contains(x),
    decreases el.len() - i,
{
    if 0 <= i < el.len() {
        let idx = el[i];
        assert(el.contains(idx));
        let hs2 = hs.update(idx as int, hs[idx as int].after_availability_check(now_ms));
        let c = cum + eps[idx as int].weight;
        lemma_weighted_scan_member(eps, hs, el, ex, target, i + 1, cum, now_ms);
        lemma_weighted_scan_member(eps, hs2, el, ex, target, i + 1, cum, now_ms);
        lemma_weighted_scan_member(eps, hs2, el, ex, target, i + 1, c, now_ms);
    }
}

proof fn lemma_rr_scan_all_unavailable(
    hs: Seq<HealthState>,
    el: Seq<usize>,
    ex: Seq<usize>,
    start: int,
    i: int,
    now_ms: u64,
)
    requires
        forall|j: int| 0 <= j < el.len() && !ex.contains(el[j]) ==> (#[trigger] el[j]) < hs.len()
            && !hs[el[j] as int].available_at(now_ms),
    ensures
        rr_scan(hs, el, ex, start, i, now_ms) == (None::<usize>, hs),
    decreases el.len() - i,
{
    if 0 <= i < el.len() {
        let k = (start + i) % (el.len() as int);
        let idx = el[k];
        if !ex.contains(idx) {
            lemma_checked_unavailable(hs[idx as int], now_ms);
            assert(hs.update(idx as int, hs[idx as int].after_availability_check(now_ms)) =~= hs);
        }
        lemma_rr_scan_all_unavailable(hs, el, ex, start, i + 1, now_ms);
    }
}

proof fn lemma_no_healthy_weight(eps: Seq<EndpointView>, hs: Seq<HealthState>, el: Seq<usize>, ex: Seq<usize>, k: int)
    requires
        0 <= k <= el.len(),
        forall|j: int| 0 <= j < el.len() && !ex.contains(el[j]) ==> !(#[trigger] hs[el[j] as int]).is_healthy,
    ensures
        eligible_weight(eps, hs, el, ex, k, true) == 0,
    decreases k,
{
    if k > 0 {
        lemma_no_healthy_weight(eps, hs, el, ex, k - 1);
        let idx = el[k - 1];
        if !ex.contains(idx) {
            assert(!hs[el[k - 1] as int].is_healthy);
        }
    }
}

/// When no eligible endpoint can serve (round robin: none is available;
/// weighted: none is healthy), selection falls back to the least recently
/// failed one and leaves the health records as they were.
pub proof fn lemma_fallback_to_least_recently_failed(
    p: PoolView,
    el: Seq<usize>,
    ex: Seq<usize>,
    now_ms: u64,
)
    requires
        p.rotation != RotationStrategy::Latency,
        el.len() > 0,
        forall|j: int| 0 <= j < el.len() && !ex.contains(el[j]) ==> (#[trigger] el[j]) < p.health.len(),
        p.rotation == RotationStrategy::RoundRobin ==> forall|j: int|
            0 <= j < el.len() && !ex.contains(el[j]) ==> !p.health[(#[trigger] el[j]) as int].available_at(now_ms),
        p.rotation == RotationStrategy::Weighted ==> forall|j: int|
            0 <= j < el.len() && !ex.contains(el[j]) ==> !p.health[(#[trigger] el[j]) as int].is_healthy,
    ensures
        select_from(p, el, ex, now_ms).0 == least_recently_failed_in(p.health, el, ex, el.len() as int),
        select_from(p, el, ex, now_ms).1 == p.health,
{
    if p.rotation == RotationStrategy::RoundRobin {
        lemma_rr_scan_all_unavailable(p.health, el, ex, p.counter as int, 0, now_ms);
    } else {
        lemma_no_healthy_weight(p.endpoints, p.health, el, ex, el.len() as int);
    }
}

/// Round robin takes turns: when every eligible endpoint is available and
/// none is excluded, a selection picks the endpoint at the rotation
/// counter's position (modulo the eligible count) and advances the counter,
/// so consecutive selections walk the eligible endpoints in order.
pub proof fn lemma_round_robin_takes_turns(p: PoolView, el: Seq<usize>, now_ms: u64)
    requires
        p.rotation == RotationStrategy::RoundRobin,
        el.len() > 0,
        forall|j: int| 0 <= j < el.len() ==> (#[trigger] el[j]) < p.health.len()
            && p.health[el[j] as int].available_at(now_ms),
    ensures
        select_from(p, el, Seq::empty(), now_ms).0 == Some(el[(p.counter as int) % (el.len() as int)]),
        select_from(p, el, Seq::empty(), now_ms).2 == vstd::wrapping::usize_specs::wrapping_add(p.counter, 1),
{
    let k = (p.counter as int + 0) % (el.len() as int);
    assert(0 <= k < el.len());
    assert(!Seq::<usize>::empty().contains(el[k]));
}

/// The summed weight of the first `k` endpoints of `el`.
pub open spec fn prefix_weight(eps: Seq<EndpointView>, el: Seq<usize>, k: int) -> nat
    decreases k,
{
    if k <= 0 {
        0
    } else {
        prefix_weight(eps, el, k - 1) + eps[el[k - 1] as int].weight as nat
    }
}

proof fn lemma_prefix_monotone(eps: Seq<EndpointView>, el: Seq<usize>, a: int, b: int)
    requires
        0 <= a <= b,
    ensures
        prefix_weight(eps, el, a) <= prefix_weight(eps, el, b),
    decreases b - a,
{
    if a < b {
        lemma_prefix_monotone(eps, el, a, b - 1);
    }
}

proof fn lemma_healthy_weight_is_prefix(
    eps: Seq<EndpointView>,
    hs: Seq<HealthState>,
    el: Seq<usize>,
    k: int,
)
    requires
        0 <= k <= el.len(),
        forall|j: int| 0 <= j < el.len() ==> (#[trigger] hs[el[j] as int]).is_healthy,
    ensures
        eligible_weight(eps, hs, el, Seq::empty(), k, true) == prefix_weight(eps, el, k),
    decreases k,
{
    if k > 0 {
        lemma_healthy_weight_is_prefix(eps, hs, el, k - 1);
        assert(hs[el[k - 1] as int].is_healthy);
        assert(!Seq::<usize>::empty().contains(el[k - 1]));
    }
}

proof fn lemma_weighted_scan_prefix(
    eps: Seq<EndpointView>,
    hs: Seq<HealthState>,
    el: Seq<usize>,
    target: int,
    i: int,
    j: int,
    now_ms: u64,
)
    requires
        0 <= i <= j < el.len(),
        forall|m: int| 0 <= m < el.len() ==> (#[trigger] el[m]) < hs.len() && hs[el[m] as int].is_healthy
            && hs[el[m] as int].available_at(now_ms),
        prefix_weight(eps, el, j) <= target < prefix_weight(eps, el, j + 1),
    ensures
        weighted_scan(eps, hs, el, Seq::empty(), target, i, prefix_weight(eps, el, i) as int, now_ms).0
            == Some(el[j]),
    decreases j - i,
{
    let idx = el[i];
    assert(!Seq::<usize>::empty().contains(idx));
    assert(hs[idx as int].available_at(now_ms));
    assert(hs.update(idx as int, hs[idx as int].after_availability_check(now_ms)) =~= hs);
    if i < j {
        lemma_prefix_monotone(eps, el, i + 1, j);
        lemma_weighted_scan_prefix(eps, hs, el, target, i + 1, j, now_ms);
    }
}

/// Weighted rotation follows the weights: when every eligible endpoint is
/// healthy and available and none is excluded, the rotation counter
/// (modulo the total weight) falls into the weight span of exactly one
/// endpoint, and that endpoint is picked. Over as many selections as the
/// total weight, each endpoint is therefore picked as often as its weight.
pub proof fn lemma_weighted_picks_by_weight_span(p: PoolView, el: Seq<usize>, j: int, now_ms: u64)
    requires
        p.rotation == RotationStrategy::Weighted,
        0 <= j < el.len(),
        forall|m: int| 0 <= m < el.len() ==> (#[trigger] el[m]) < p.health.len()
            && p.health[el[m] as int].is_healthy && p.health[el[m] as int].available_at(now_ms),
        prefix_weight(p.endpoints, el, j) <= ((p.counter as u32) as int) % (prefix_weight(
            p.endpoints,
            el,
            el.len() as int,
        ) as int) < prefix_weight(p.endpoints, el, j + 1),
    ensures
        select_from(p, el, Seq::empty(), now_ms).0 == Some(el[j]),
{
    lemma_healthy_weight_is_prefix(p.endpoints, p.health, el, el.len() as int);
    lemma_prefix_monotone(p.endpoints, el, j + 1, el.len() as int);
    let target = ((p.counter as u32) as int) % (prefix_weight(p.endpoints, el, el.len() as int) as int);
    lemma_weighted_scan_prefix(p.endpoints, p.health, el, target, 0, j, now_ms);
}

/// The pool after `n` selections from `el` with nothing excluded, all at
/// `now_ms`.
pub open spec fn after_selections(p: PoolView, el: Seq<usize>, now_ms: u64, n: nat) -> PoolView
    decreases n,
{
    if n == 0 {
        p
    } else {
        let q = after_selections(p, el, now_ms, (n - 1) as nat);
        let (_, hs, c) = select_from(q, el, Seq::empty(), now_ms);
        PoolView { health: hs, counter: c, ..q }
    }
}

/// The endpoints picked by `n` selections in a row from `el`.
pub open spec fn selection_run(p: PoolView, el: Seq<usize>, now_ms: u64, n: nat) -> Seq<Option<usize>>
    decreases n,
{
    if n == 0 {
        Seq::empty()
    } else {
        let q = after_selections(p, el, now_ms, (n - 1) as nat);
        selection_run(p, el, now_ms, (n - 1) as nat).push(select_from(q, el, Seq::empty(), now_ms).0)
    }
}

proof fn lemma_selection_run_steps(p: PoolView, el: Seq<usize>, now_ms: u64, n: nat)
    requires
        p.rotation == RotationStrategy::RoundRobin,
        el.len() > 0,
        forall|j: int| 0 <= j < el.len() ==> (#[trigger] el[j]) < p.health.len()
            && p.health[el[j] as int].is_healthy && !p.health[el[j] as int].throttled_at(now_ms),
        p.counter + n <= usize::MAX,
    ensures
        after_selections(p, el, now_ms, n) == (PoolView { counter: (p.counter + n) as usize, ..p }),
        selection_run(p, el, now_ms, n).len() == n,
        forall|k: int| 0 <= k < n ==> (#[trigger] selection_run(p, el, now_ms, n)[k]) == Some(
            el[(p.counter + k) % (el.len() as int)],
        ),
    decreases n,
{
    if n > 0 {
        let m = (n - 1) as nat;
        lemma_selection_run_steps(p, el, now_ms, m);
        let q = after_selections(p, el, now_ms, m);
        let i = (q.counter as int) % (el.len() as int);
        assert(0 <= i < el.len());
        let idx = el[i];
        assert(!Seq::<usize>::empty().contains(idx));
        assert(q.health[idx as int].available_at(now_ms));
        assert(q.health.update(idx as int, q.health[idx as int].after_availability_check(now_ms))
            =~= q.health);
        assert(selection_run(p, el, now_ms, n) =~= selection_run(p, el, now_ms, m).push(Some(idx)));
    }
}

/// Round robin visits each eligible endpoint once per round: when every
/// eligible endpoint is healthy and not throttled, nothing is excluded and
/// the counter does not wrap, as many selections in a row as there are
/// eligible endpoints pick each of them exactly once, in turn from the
/// counter's position.
pub proof fn lemma_round_robin_visits_each_once(p: PoolView, el: Seq<usize>, now_ms: u64)
    requires
        p.rotation == RotationStrategy::RoundRobin,
        el.len() > 0,
        el.no_duplicates(),
        forall|j: int| 0 <= j < el.len() ==> (#[trigger] el[j]) < p.health.len()
            && p.health[el[j] as int].is_healthy && !p.health[el[j] as int].throttled_at(now_ms),
        p.counter + el.len() <= usize::MAX,
    ensures
        selection_run(p, el, now_ms, el.len()).len() == el.len(),
        forall|k: int| 0 <= k < el.len() ==> (#[trigger] selection_run(p, el, now_ms, el.len())[k])
            == Some(el[(p.counter + k) % (el.len() as int)]),
        forall|j: int| 0 <= j < el.len() ==> exists|k: int|
            0 <= k < el.len() && #[trigger] selection_run(p, el, now_ms, el.len())[k] == Some(
                #[trigger] el[j],
            ),
        forall|k1: int, k2: int| 0 <= k1 < k2 < el.len() ==> #[trigger] selection_run(
            p,
            el,
            now_ms,
            el.len(),
        )[k1] != #[trigger] selection_run(p, el, now_ms, el.len())[k2],
{
    let n = el.len();
    let len = el.len() as int;
    let c = p.counter as int;
    lemma_selection_run_steps(p, el, now_ms, n);
    let run = selection_run(p, el, now_ms, n);
    lemma_fundamental_div_mod(c, len);
    let q = c / len;
    let r = c % len;
    assert forall|j: int| 0 <= j < len implies exists|k: int|
        0 <= k < len && #[trigger] run[k] == Some(#[trigger] el[j]) by {
        let k = if j >= r {
            j - r
        } else {
            j + len - r
        };
        let t = if j >= r {
            q
        } else {
            q + 1
        };
        assert(c + k == len * t + j) by (nonlinear_arith)
            requires
                c == len * q + r,
                k == (if j >= r { j - r } else { j + len - r }),
                t == (if j >= r { q } else { q + 1 }),
        ;
        lemma_mod_multiples_vanish(t, j, len);
        lemma_small_mod(j as nat, len as nat);
        assert(run[k] == Some(el[(c + k) % len]));
    }
    assert forall|k1: int, k2: int| 0 <= k1 < k2 < len implies #[trigger] run[k1] != #[trigger] run[k2] by {
        let a = (c + k1) % len;
        let b = (c + k2) % len;
        if a == b {
            lemma_fundamental_div_mod(c + k1, len);
            lemma_fundamental_div_mod(c + k2, len);
            let d1 = (c + k1) / len;
            let d2 = (c + k2) / len;
            assert(k2 - k1 == len * (d2 - d1)) by (nonlinear_arith)
                requires
                    c + k1 == len * d1 + a,
                    c + k2 == len * d2 + b,
                    a == b,
            ;
            assert(false) by (nonlinear_arith)
                requires
                    k2 - k1 == len * (d2 - d1),
                    0 < k2 - k1 < len,
            ;
        }
        assert(0 <= a < len && 0 <= b < len);
    }
}

/// No endpoint among the first `k` of `el` is left once `ex` is taken away.
pub open spec fn all_excluded(el: Seq<usize>, ex: Seq<usize>) -> bool {
    forall|j: int| 0 <= j < el.len() ==> ex.contains(#[trigger] el[j])
}

proof fn lemma_lrf_some(hs: Seq<HealthState>, el: Seq<usize>, ex: Seq<usize>, k: int, j: int)
    requires
        0 <= j < k <= el.len(),
        !ex.contains(el[j]),
    ensures
        least_recently_failed_in(hs, el, ex, k) is Some,
    decreases k,
{
    if j < k - 1 {
        lemma_lrf_some(hs, el, ex, k - 1, j);
    }
}

/// Selection by round robin or weight finds an endpoint exactly when some
/// eligible endpoint is not excluded: when none can serve, the least
/// recently failed one is taken, so `None` comes only when every eligible
/// endpoint is excluded (or there is none).
pub proof fn lemma_selection_none_iff_all_excluded(
    p: PoolView,
    el: Seq<usize>,
    ex: Seq<usize>,
    now_ms: u64,
)
    requires
        p.rotation != RotationStrategy::Latency,
    ensures
        select_from(p, el, ex, now_ms).0 is None <==> all_excluded(el, ex),
{
    lemma_selection_respects_exclusion(p, el, ex, now_ms);
    if !all_excluded(el, ex) {
        let j = choose|j: int| 0 <= j < el.len() && !ex.contains(#[trigger] el[j]);
        lemma_lrf_some(p.health, el, ex, el.len() as int, j);
        let hw = eligible_weight(p.endpoints, p.health, el, ex, el.len() as int, true);
        if p.rotation == RotationStrategy::Weighted && hw != 0 {
            let target = ((p.counter as u32) as int) % (hw as int);
            let hs = weighted_scan(p.endpoints, p.health, el, ex, target, 0, 0, now_ms).1;
            lemma_lrf_some(hs, el, ex, el.len() as int, j);
        }
    } else {
        match select_from(p, el, ex, now_ms).0 {
            Some(i) => {
                let j = choose|j: int| 0 <= j < el.len() && el[j] == i;
                assert(ex.contains(el[j]));
            },
            None => {},
        }
    }
}

proof fn lemma_rr_scan_prefers_available(
    hs: Seq<HealthState>,
    el: Seq<usize>,
    ex: Seq<usize>,
    start: int,
    i: int,
    m: int,
    now_ms: u64,
)
    requires
        0 <= i <= m < el.len(),
        forall|j: int| 0 <= j < el.len() && !ex.contains(el[j]) ==> (#[trigger] el[j]) < hs.len(),
        !ex.contains(el[(start + m) % (el.len() as int)]),
        hs[el[(start + m) % (el.len() as int)] as int].available_at(now_ms),
    ensures
        rr_scan(hs, el, ex, start, i, now_ms).0 matches Some(x) && hs[x as int].available_at(now_ms),
    decreases el.len() - i,
{
    let k = (start + i) % (el.len() as int);
    let idx = el[k];
    if !ex.contains(idx) && !hs[idx as int].available_at(now_ms) {
        lemma_checked_unavailable(hs[idx as int], now_ms);
        assert(hs.update(idx as int, hs[idx as int].after_availability_check(now_ms)) =~= hs);
        lemma_rr_scan_prefers_available(hs, el, ex, start, i + 1, m, now_ms);
    } else if ex.contains(idx) {
        lemma_rr_scan_prefers_available(hs, el, ex, start, i + 1, m, now_ms);
    }
}

/// Round robin prefers available endpoints: when some eligible endpoint
/// that is not excluded is available, the one picked is available.
pub proof fn lemma_round_robin_picks_available(
    p: PoolView,
    el: Seq<usize>,
    ex: Seq<usize>,
    j: int,
    now_ms: u64,
)
    requires
        p.rotation == RotationStrategy::RoundRobin,
        0 <= j < el.len(),
        forall|m: int| 0 <= m < el.len() && !ex.contains(el[m]) ==> (#[trigger] el[m]) < p.health.len(),
        !ex.contains(el[j]),
        p.health[el[j] as int].available_at(now_ms),
    ensures
        select_from(p, el, ex, now_ms).0 matches Some(x) && p.health[x as int].available_at(now_ms),
{
    let len = el.len() as int;
    let c = p.counter as int;
    lemma_fundamental_div_mod(c, len);
    let q = c / len;
    let r = c % len;
    let m = if j >= r {
        j - r
    } else {
        j + len - r
    };
    let t = if j >= r {
        q
    } else {
        q + 1
    };
    assert(c + m == len * t + j) by (nonlinear_arith)
        requires
            c == len * q + r,
            m == (if j >= r { j - r } else { j + len - r }),
            t == (if j >= r { q } else { q + 1 }),
    ;
    lemma_mod_multiples_vanish(t, j, len);
    lemma_small_mod(j as nat, len as nat);
    lemma_rr_scan_prefers_available(p.health, el, ex, c, 0, m, now_ms);
}

/// Selection only ever picks an endpoint of the eligible set that is not
/// excluded: a failed or throttled endpoint put on the exclusion list is
/// never chosen again.
pub proof fn lemma_selection_respects_exclusion(
    p: PoolView,
    el: Seq<usize>,
    ex: Seq<usize>,
    now_ms: u64,
)
    ensures
        select_from(p, el, ex, now_ms).0 matches Some(i) ==> el.contains(i) && !ex.contains(i),
{
    lemma_rr_scan_member(p.health, el, ex, p.counter as int, 0, now_ms);
    lemma_lrf_member(p.health, el, ex, el.len() as int);
    let hw = eligible_weight(p.endpoints, p.health, el, ex, el.len() as int, true);
    if hw != 0 {
        let target = ((p.counter as u32) as int) % (hw as int);
        lemma_weighted_scan_member(p.endpoints, p.health, el, ex, target, 0, 0, now_ms);
        let hs = weighted_scan(p.endpoints, p.health, el, ex, target, 0, 0, now_ms).1;
        lemma_lrf_member(hs, el, ex, el.len() as int);
        match least_recently_failed_in(hs, el, ex, el.len() as int) {
            Some(i) => {
                let j = choose|j: int| 0 <= j < el.len() && el[j] == i && !ex.contains(i);
                assert(el.contains(el[j]));
            },
            None => {},
        }
    }
    match least_recently_failed_in(p.health, el, ex, el.len() as int) {
        Some(i) => {
            let j = choose|j: int| 0 <= j < el.len() && el[j] == i && !ex.contains(i);
            assert(el.contains(el[j]));
        },
        None => {},
    }
}


/// `url` with its query string replaced by `?...`, so that keys carried in
/// the query do not leak into reports.
pub fn redact_url(url: &str) -> (r: String)
    ensures
        r@ == redacted(url@),
{
    let v = crate::text::chars_of(url);
    let mut i: usize = 0;
    while i < v.len()
        invariant
            v@ == url@,
            i <= v@.len(),
            first_query_mark(url@, i as int) is None,
        decreases v@.len() - i,
    {
        if v[i] == '?' {
            proof {
                lemma_first_query_mark_stable(url@, i + 1, url@.len() as int);
            }
            let head = prefix_string(url, i);
            return head.concat("?...");
        }
        i = i + 1;
    }
    String::from_str(url)
}

proof fn lemma_first_query_mark_stable(s: Seq<char>, k: int, n: int)
    requires
        0 <= k <= n,
        first_query_mark(s, k) is Some,
    ensures
        first_query_mark(s, n) == first_query_mark(s, k),
    decreases n - k,
{
    if k < n {
        lemma_first_query_mark_stable(s, k, n - 1);
    }
}

proof fn lemma_claimed_facts(p: PoolView, method: Seq<char>, k: int)
    requires
        0 <= k <= p.len(),
        p.len() <= usize::MAX,
    ensures
        claimed_upto(p, method, k).no_duplicates(),
        forall|j: int| 0 <= j < claimed_upto(p, method, k).len() ==> (#[trigger] claimed_upto(p, method, k)[j]) < k
            && p.active.contains(claimed_upto(p, method, k)[j]),
    decreases k,
{
    if k > 0 {
        lemma_claimed_facts(p, method, k - 1);
        let prev = claimed_upto(p, method, k - 1);
        assert(!prev.contains((k - 1) as usize));
    }
}

proof fn lemma_unconstrained_facts(p: PoolView, k: int)
    requires
        0 <= k <= p.len(),
        p.len() <= usize::MAX,
    ensures
        unconstrained_upto(p, k).no_duplicates(),
        forall|j: int| 0 <= j < unconstrained_upto(p, k).len() ==> (#[trigger] unconstrained_upto(p, k)[j]) < k
            && p.active.contains(unconstrained_upto(p, k)[j]),
    decreases k,
{
    if k > 0 {
        lemma_unconstrained_facts(p, k - 1);
        let prev = unconstrained_upto(p, k - 1);
        assert(!prev.contains((k - 1) as usize));
    }
}

proof fn lemma_claimed_membership(p: PoolView, method: Seq<char>, k: int, i: usize)
    requires
        0 <= k,
    ensures
        claimed_upto(p, method, k).contains(i) <==> (i < k && claims(p, method, i)),
    decreases k,
{
    if k > 0 {
        lemma_claimed_membership(p, method, k - 1, i);
        let prev = claimed_upto(p, method, k - 1);
        if claims(p, method, (k - 1) as usize) {
            assert(claimed_upto(p, method, k) == prev.push((k - 1) as usize));
            if i == (k - 1) as usize && k - 1 <= usize::MAX {
                assert(claimed_upto(p, method, k)[prev.len() as int] == i);
            }
            if claimed_upto(p, method, k).contains(i) && !prev.contains(i) {
                let a = choose|a: int| 0 <= a < claimed_upto(p, method, k).len() && claimed_upto(p, method, k)[a] == i;
                assert(a == prev.len());
            }
            if prev.contains(i) {
                let a = choose|a: int| 0 <= a < prev.len() && prev[a] == i;
                assert(claimed_upto(p, method, k)[a] == i);
            }
        }
    }
}

proof fn lemma_unconstrained_membership(p: PoolView, k: int, i: usize)
    requires
        0 <= k,
    ensures
        unconstrained_upto(p, k).contains(i) <==> (i < k && unconstrained(p, i)),
    decreases k,
{
    if k > 0 {
        lemma_unconstrained_membership(p, k - 1, i);
        let prev = unconstrained_upto(p, k - 1);
        if unconstrained(p, (k - 1) as usize) {
            assert(unconstrained_upto(p, k) == prev.push((k - 1) as usize));
            if i == (k - 1) as usize && k - 1 <= usize::MAX {
                assert(unconstrained_upto(p, k)[prev.len() as int] == i);
            }
            if unconstrained_upto(p, k).contains(i) && !prev.contains(i) {
                let a = choose|a: int| 0 <= a < unconstrained_upto(p, k).len() && unconstrained_upto(p, k)[a] == i;
                assert(a == prev.len());
            }
            if prev.contains(i) {
                let a = choose|a: int| 0 <= a < prev.len() && prev[a] == i;
                assert(unconstrained_upto(p, k)[a] == i);
            }
        }
    }
}

/// Method routing: an active endpoint whose method list names the method,
/// at any position of the list, may serve it; and every endpoint that may
/// serve a method is active and either names the method in its list, or
/// has no list while no active endpoint names the method.
pub proof fn lemma_method_routing(p: PoolView, method: Seq<char>)
    requires
        ChainPool::pool_ok(p),
    ensures
        forall|i: usize, j: int|
            #![trigger eligible_for(p, method).contains(i), p.endpoints[i as int].methods->0[j]]
            p.active.contains(i) && p.endpoints[i as int].methods is Some && 0 <= j
                < p.endpoints[i as int].methods->0.len() && p.endpoints[i as int].methods->0[j]@
                == method ==> eligible_for(p, method).contains(i),
        forall|i: usize|
            #![trigger eligible_for(p, method).contains(i)]
            eligible_for(p, method).contains(i) ==> p.active.contains(i) && (
            (p.endpoints[i as int].methods is Some && exists|j: int|
                0 <= j < p.endpoints[i as int].methods->0.len()
                    && (#[trigger] p.endpoints[i as int].methods->0[j])@ == method) || (
            p.endpoints[i as int].methods is None && forall|x: usize, j: int|
                #![trigger p.active.contains(x), p.endpoints[x as int].methods->0[j]]
                p.active.contains(x) && p.endpoints[x as int].methods is Some && 0 <= j
                    < p.endpoints[x as int].methods->0.len() ==> p.endpoints[x as int].methods->0[j]@
                    != method)),
{
    lemma_roster_members(p.active, p.house, p.len());
    let n = p.len() as int;
    let claimed = claimed_upto(p, method, n);
    assert forall|i: usize, j: int|
        #![trigger eligible_for(p, method).contains(i), p.endpoints[i as int].methods->0[j]]
        p.active.contains(i) && p.endpoints[i as int].methods is Some && 0 <= j
            < p.endpoints[i as int].methods->0.len() && p.endpoints[i as int].methods->0[j]@
            == method implies eligible_for(p, method).contains(i) by {
        let m = p.endpoints[i as int].methods->0;
        assert(m[j]@ == method);
        assert(claims(p, method, i));
        lemma_claimed_membership(p, method, n, i);
    }
    assert forall|i: usize|
        #![trigger eligible_for(p, method).contains(i)]
        eligible_for(p, method).contains(i) implies p.active.contains(i) && (
        (p.endpoints[i as int].methods is Some && exists|j: int|
            0 <= j < p.endpoints[i as int].methods->0.len()
                && (#[trigger] p.endpoints[i as int].methods->0[j])@ == method) || (
        p.endpoints[i as int].methods is None && forall|x: usize, j: int|
            #![trigger p.active.contains(x), p.endpoints[x as int].methods->0[j]]
            p.active.contains(x) && p.endpoints[x as int].methods is Some && 0 <= j
                < p.endpoints[x as int].methods->0.len() ==> p.endpoints[x as int].methods->0[j]@
                != method)) by {
        lemma_claimed_membership(p, method, n, i);
        if claimed.len() > 0 {
            assert(claims(p, method, i));
        } else {
            lemma_unconstrained_membership(p, n, i);
            assert(unconstrained(p, i));
            assert forall|x: usize, j: int|
                #![trigger p.active.contains(x), p.endpoints[x as int].methods->0[j]]
                p.active.contains(x) && p.endpoints[x as int].methods is Some && 0 <= j
                    < p.endpoints[x as int].methods->0.len() implies p.endpoints[x as int].methods->0[j]@
                    != method by {
                if p.endpoints[x as int].methods->0[j]@ == method {
                    assert(claims(p, method, x));
                    lemma_claimed_membership(p, method, n, x);
                    assert(claimed.contains(x));
                }
            }
        }
    }
}

/// The endpoints eligible for a method are distinct active endpoints.
pub proof fn lemma_eligible_for_facts(p: PoolView, method: Seq<char>)
    requires
        p.len() <= usize::MAX,
    ensures
        eligible_for(p, method).no_duplicates(),
        forall|j: int| 0 <= j < eligible_for(p, method).len() ==> (#[trigger] eligible_for(p, method)[j]) < p.len()
            && p.active.contains(eligible_for(p, method)[j]),
{
    lemma_claimed_facts(p, method, p.len() as int);
    lemma_unconstrained_facts(p, p.len() as int);
}

proof fn lemma_demote_multiset(a: Seq<usize>, h: Seq<usize>, pos: int)
    requires
        0 <= pos < a.len(),
    ensures
        ({
            let hh = h.push(a[pos]);
            (a.remove(pos).push(hh[0]) + hh.drop_first()).to_multiset() == (a + h).to_multiset()
        }),
{
    broadcast use vstd::multiset::group_multiset_axioms;

    let idx = a[pos];
    let hh = h.push(idx);
    let h0 = hh[0];
    let ar = a.remove(pos);
    let fa = ar.push(h0);
    let fh = hh.drop_first();
    lemma_multiset_commutative(fa, fh);
    lemma_multiset_commutative(a, h);
    vstd::seq_lib::to_multiset_build(ar, h0);
    vstd::seq_lib::to_multiset_remove(a, pos);
    vstd::seq_lib::to_multiset_build(h, idx);
    assert(hh =~= seq![h0] + fh);
    lemma_multiset_commutative(seq![h0], fh);
    assert(seq![h0] =~= Seq::<usize>::empty().push(h0));
    vstd::seq_lib::to_multiset_build(Seq::<usize>::empty(), h0);
    assert(Seq::<usize>::empty().to_multiset() =~= Multiset::empty());
    assert(a.contains(idx));
    to_multiset_contains(a, idx);
    let ma = a.to_multiset();
    let mh = h.to_multiset();
    assert(fa.to_multiset() =~= ma.remove(idx).insert(h0));
    assert(hh.to_multiset() =~= mh.insert(idx));
    assert(hh.to_multiset() =~= Multiset::empty().insert(h0).add(fh.to_multiset()));
    assert(fh.to_multiset() =~= mh.insert(idx).remove(h0));
    assert forall|x: usize| (fa + fh).to_multiset().count(x) == (a + h).to_multiset().count(x) by {
    }
    assert((fa + fh).to_multiset() =~= (a + h).to_multiset());
}

/// Demoting active endpoints keeps the roster a permutation of all
/// endpoints and keeps the active set at its size; a demoted endpoint
/// returns to the back of the reserve queue and the front of the queue
/// becomes active.
pub proof fn lemma_demotion_keeps_roster(a: Seq<usize>, h: Seq<usize>, pos: int, n: nat)
    requires
        roster_ok(a, h, n),
        0 <= pos < a.len(),
    ensures
        ({
            let hh = h.push(a[pos]);
            roster_ok(a.remove(pos).push(hh[0]), hh.drop_first(), n)
        }),
{
    lemma_demote_multiset(a, h, pos);
}

impl ChainPool {
    /// Select the next endpoint among the active ones.
    pub fn next_endpoint(&mut self, now_ms: u64) -> (r: Option<(usize, String)>)
        requires
            old(self)@.rotation != RotationStrategy::Latency,
        ensures
            ({
                let (pick, hs, c) = select_from(old(self)@, old(self)@.active, Seq::empty(), now_ms);
                &&& final(self)@ == (PoolView { health: hs, counter: c, ..old(self)@ })
                &&& match pick {
                    Some(i) => r matches Some((j, u)) && j == i && i < old(self)@.len() && u@
                        == old(self)@.endpoints[i as int].url,
                    None => r is None,
                }
            }),
            r matches Some((i, _)) ==> old(self)@.active.contains(i),
            r is Some <==> old(self)@.active.len() > 0,
    {
        let none: Vec<usize> = Vec::new();
        self.next_endpoint_excluding_many(none.as_slice(), now_ms)
    }

    /// Select the next active endpoint other than `exclude`.
    pub fn next_endpoint_excluding(&mut self, exclude: usize, now_ms: u64) -> (r: Option<(usize, String)>)
        requires
            old(self)@.rotation != RotationStrategy::Latency,
        ensures
            ({
                let (pick, hs, c) = select_from(old(self)@, old(self)@.active, seq![exclude], now_ms);
                &&& final(self)@ == (PoolView { health: hs, counter: c, ..old(self)@ })
                &&& match pick {
                    Some(i) => r matches Some((j, u)) && j == i && i < old(self)@.len() && u@
                        == old(self)@.endpoints[i as int].url,
                    None => r is None,
                }
            }),
            r matches Some((i, _)) ==> old(self)@.active.contains(i) && i != exclude,
            r is None <==> all_excluded(old(self)@.active, seq![exclude]),
    {
        let mut ex: Vec<usize> = Vec::new();
        ex.push(exclude);
        assert(ex@ =~= seq![exclude]);
        assert(ex@[0] == exclude);
        assert(ex@.contains(exclude));
        self.next_endpoint_excluding_many(ex.as_slice(), now_ms)
    }

    /// Select the next active endpoint not in `exclude`.
    pub fn next_endpoint_excluding_many(&mut self, exclude: &[usize], now_ms: u64) -> (r: Option<(usize, String)>)
        requires
            old(self)@.rotation != RotationStrategy::Latency,
        ensures
            ({
                let (pick, hs, c) = select_from(old(self)@, old(self)@.active, exclude@, now_ms);
                &&& final(self)@ == (PoolView { health: hs, counter: c, ..old(self)@ })
                &&& match pick {
                    Some(i) => r matches Some((j, u)) && j == i && i < old(self)@.len() && u@
                        == old(self)@.endpoints[i as int].url,
                    None => r is None,
                }
            }),
            r matches Some((i, _)) ==> old(self)@.active.contains(i) && !exclude@.contains(i),
            r is None <==> all_excluded(old(self)@.active, exclude@),
    {
        proof {
            use_type_invariant(&*self);
            self.lemma_view_ok();
            assert forall|j: int| 0 <= j < self@.active.len() implies (#[trigger] self@.active[j]) < self@.len() by {
                assert(self@.active.contains(self@.active[j]));
            }
            lemma_eligible_weight_bounded(self@, self@.active, exclude@);
        }
        let active = self.roster.active.clone();
        assert(active@ =~= self@.active);
        self.next_endpoint_from_eligible(active.as_slice(), exclude, now_ms)
    }

    /// The active endpoints that may serve `method`, in increasing order:
    /// those whose method list names it, or, when none does, those without
    /// a method list.
    pub fn eligible_indices_for_method(&self, method: &str) -> (r: Vec<usize>)
        ensures
            r@ == eligible_for(self@, method@),
    {
        proof {
            use_type_invariant(self);
        }
        let n = self.endpoints.len();
        let active = self.roster.active.clone();
        assert(active@ =~= self@.active);
        let mut claimed: Vec<usize> = Vec::new();
        let mut i: usize = 0;
        while i < n
            invariant
                n == self@.len(),
                self@.endpoints == self.endpoints.deep_view(),
                active@ == self@.active,
                i <= n,
                claimed@ == claimed_upto(self@, method@, i as int),
            decreases n - i,
        {
            let mut claim = false;
            assert(self@.endpoints[i as int] == self.endpoints@[i as int]@);
            if contains_index(active.as_slice(), i) {
                if let Some(m) = &self.endpoints[i].methods {
                    let mut j: usize = 0;
                    let mut found = false;
                    while j < m.len()
                        invariant
                            j <= m@.len(),
                            found == exists|k: int| 0 <= k < j && (#[trigger] m@[k])@ == method@,
                        decreases m@.len() - j,
                    {
                        if str_eq(m[j].as_str(), method) {
                            found = true;
                        }
                        j = j + 1;
                    }
                    claim = found;
                    assert(j == m@.len());
                    assert(found == exists|k: int| 0 <= k < m@.len() && (#[trigger] m@[k])@ == method@);
                    assert(self@.endpoints[i as int].methods == Some(m@));
                    assert(self@.active.contains(i));
                    proof {
                        let mm = self@.endpoints[i as int].methods->0;
                        assert(mm == m@);
                        if found {
                            let k = choose|k: int| 0 <= k < m@.len() && (#[trigger] m@[k])@ == method@;
                            assert(mm[k]@ == method@);
                        }
                    }
                    assert(claim == claims(self@, method@, i));
                } else {
                    assert(!claims(self@, method@, i));
                }
            } else {
                assert(!claims(self@, method@, i));
            }
            if claim {
                claimed.push(i);
            }
            i = i + 1;
        }
        if claimed.len() > 0 {
            return claimed;
        }
        let mut free: Vec<usize> = Vec::new();
        let mut i: usize = 0;
        while i < n
            invariant
                n == self@.len(),
                self@.endpoints == self.endpoints.deep_view(),
                active@ == self@.active,
                i <= n,
                free@ == unconstrained_upto(self@, i as int),
            decreases n - i,
        {
            assert(self@.endpoints[i as int] == self.endpoints@[i as int]@);
            if contains_index(active.as_slice(), i) && self.endpoints[i].methods.is_none() {
                free.push(i);
            }
            i = i + 1;
        }
        free
    }

    /// Records a success on endpoint `idx`.
    pub fn record_success(&mut self, idx: usize)
        requires
            idx < old(self)@.len(),
        ensures
            final(self)@ == old(self)@.with_health(
                old(self)@.health.update(idx as int, old(self)@.health[idx as int].after_success()),
            ),
    {
        proof {
            use_type_invariant(&*self);
        }
        let ghost p0 = self@;
        self.health[idx].record_success();
        proof {
            self.lemma_health_update(p0, idx, p0.health[idx as int].after_success());
        }
    }

    /// Records a failure on endpoint `idx` at `now_ms`, with the chain's
    /// failure threshold and cooldown.
    pub fn record_failure(&mut self, idx: usize, now_ms: u64)
        requires
            idx < old(self)@.len(),
        ensures
            final(self)@ == old(self)@.with_health(
                old(self)@.health.update(
                    idx as int,
                    old(self)@.health[idx as int].after_failure(
                        old(self)@.health_config.max_consecutive_failures,
                        old(self)@.health_config.cooldown_seconds,
                        now_ms,
                    ),
                ),
            ),
    {
        proof {
            use_type_invariant(&*self);
        }
        let ghost p0 = self@;
        let max = self.health_config.max_consecutive_failures;
        let cooldown = self.health_config.cooldown_seconds;
        self.health[idx].record_failure(max, cooldown, now_ms);
        proof {
            self.lemma_health_update(p0, idx, p0.health[idx as int].after_failure(max, cooldown, now_ms));
        }
    }

    /// Records an upstream 429 on endpoint `idx` at `now_ms`; no failure.
    pub fn record_throttle(&mut self, idx: usize, now_ms: u64)
        requires
            idx < old(self)@.len(),
        ensures
            final(self)@ == old(self)@.with_health(
                old(self)@.health.update(idx as int, old(self)@.health[idx as int].after_throttle(now_ms)),
            ),
    {
        proof {
            use_type_invariant(&*self);
        }
        let ghost p0 = self@;
        self.health[idx].record_throttle(now_ms);
        proof {
            self.lemma_health_update(p0, idx, p0.health[idx as int].after_throttle(now_ms));
        }
    }

    /// Marks endpoint `idx` unhealthy for lagging behind, with the chain's cooldown.
    pub fn mark_stale(&mut self, idx: usize, now_ms: u64)
        requires
            idx < old(self)@.len(),
        ensures
            final(self)@ == old(self)@.with_health(
                old(self)@.health.update(
                    idx as int,
                    old(self)@.health[idx as int].after_mark_unhealthy(
                        old(self)@.health_config.cooldown_seconds,
                        now_ms,
                    ),
                ),
            ),
    {
        proof {
            use_type_invariant(&*self);
        }
        let ghost p0 = self@;
        let cooldown = self.health_config.cooldown_seconds;
        self.health[idx].mark_unhealthy_with_cooldown(cooldown, now_ms);
        proof {
            self.lemma_health_update(p0, idx, p0.health[idx as int].after_mark_unhealthy(cooldown, now_ms));
        }
    }

    /// Records the block height reported by endpoint `idx`.
    pub fn update_block_height(&mut self, idx: usize, height: u64)
        requires
            idx < old(self)@.len(),
        ensures
            final(self)@ == old(self)@.with_health(
                old(self)@.health.update(
                    idx as int,
                    HealthState { block_height: height, ..old(self)@.health[idx as int] },
                ),
            ),
    {
        proof {
            use_type_invariant(&*self);
        }
        let ghost p0 = self@;
        self.health[idx].update_block_height(height);
        proof {
            self.lemma_health_update(p0, idx, HealthState { block_height: height, ..p0.health[idx as int] });
        }
    }

    /// Records the latency of the last request to endpoint `idx`.
    pub fn update_latency(&mut self, idx: usize, latency_ms: u64)
        requires
            idx < old(self)@.len(),
        ensures
            final(self)@ == old(self)@.with_health(
                old(self)@.health.update(
                    idx as int,
                    HealthState { last_latency_ms: latency_ms, ..old(self)@.health[idx as int] },
                ),
            ),
    {
        proof {
            use_type_invariant(&*self);
        }
        let ghost p0 = self@;
        self.health[idx].update_latency(latency_ms);
        proof {
            self.lemma_health_update(p0, idx, HealthState { last_latency_ms: latency_ms, ..p0.health[idx as int] });
        }
    }

    /// Records a success and its latency on endpoint `idx`.
    pub fn record_success_with_latency(&mut self, idx: usize, latency_ms: u64)
        requires
            idx < old(self)@.len(),
        ensures
            final(self)@ == old(self)@.with_health(
                old(self)@.health.update(
                    idx as int,
                    HealthState {
                        last_latency_ms: latency_ms,
                        ..old(self)@.health[idx as int].after_success()
                    },
                ),
            ),
    {
        proof {
            use_type_invariant(&*self);
            self.lemma_view_ok();
        }
        self.record_success(idx);
        self.update_latency(idx, latency_ms);
        assert(self@.health =~= old(self)@.health.update(
            idx as int,
            HealthState { last_latency_ms: latency_ms, ..old(self)@.health[idx as int].after_success() },
        ));
    }

    /// How many active endpoints are available at `now_ms`; each check may
    /// end a cooldown.
    pub fn healthy_count(&mut self, now_ms: u64) -> (r: usize)
        ensures
            r == count_available(old(self)@.health, old(self)@.active, now_ms),
            final(self)@ == old(self)@.with_health(checked(old(self)@.health, old(self)@.active, now_ms)),
    {
        proof {
            use_type_invariant(&*self);
            self.lemma_view_ok();
        }
        let ghost p0 = self@;
        let active = self.roster.active.clone();
        assert(active@ =~= p0.active);
        let mut count: usize = 0;
        let mut k: usize = 0;
        assert(checked(p0.health, active@.take(0), now_ms) =~= p0.health);
        while k < active.len()
            invariant
                active@ == p0.active,
                p0 == old(self)@,
                p0.health.len() == p0.len(),
                self.health@.len() == p0.len(),
                p0.active.no_duplicates(),
                forall|x: usize| p0.active.contains(x) ==> x < p0.len(),
                k <= active@.len(),
                count <= k,
                count == count_available(p0.health, active@.take(k as int), now_ms),
                self@ == p0.with_health(checked(p0.health, active@.take(k as int), now_ms)),
            decreases active@.len() - k,
        {
            proof {
                use_type_invariant(&*self);
            }
            let idx = active[k];
            let ghost before = self@.health;
            assert(!active@.take(k as int).contains(idx)) by {
                if active@.take(k as int).contains(idx) {
                    let j = choose|j: int| 0 <= j < k && active@.take(k as int)[j] == idx;
                    assert(active@[j] == active@[k as int]);
                }
            }
            assert(p0.active.contains(idx));
            assert(before[idx as int] == p0.health[idx as int]);
            let avail = self.health[idx].is_available(now_ms);
            proof {
                self.lemma_health_update(p0.with_health(before), idx, before[idx as int].after_availability_check(now_ms));
                assert(active@.take(k + 1).drop_last() =~= active@.take(k as int));
                assert(active@.take(k + 1) =~= active@.take(k as int).push(idx));
                assert forall|x: usize| #![trigger active@.take(k + 1).contains(x)] active@.take(k + 1).contains(x) <==> (active@.take(k as int).contains(x) || x == idx) by {
                    broadcast use vstd::seq_lib::group_seq_properties;
                }
                assert(checked(p0.health, active@.take(k + 1), now_ms) =~= before.update(
                    idx as int,
                    before[idx as int].after_availability_check(now_ms),
                ));
            }
            if avail {
                count = count + 1;
            }
            k = k + 1;
        }
        assert(active@.take(active@.len() as int) =~= active@);
        count
    }

    /// Moves active endpoint `idx` to the back of the reserve queue and makes
    /// the front of the queue active. When the queue held nothing else, all
    /// endpoints neither active nor `idx` are queued first, in random order.
    /// Nothing happens when `idx` is not active.
    pub fn demote_and_replace(&mut self, idx: usize)
        ensures
            Self::pool_ok(final(self)@),
            !old(self)@.active.contains(idx) ==> final(self)@ == old(self)@,
            old(self)@.active.contains(idx) ==> exists|pos: int|
                0 <= pos < old(self)@.active.len() && old(self)@.active[pos] == idx && final(self)@ == (
                PoolView {
                    active: old(self)@.active.remove(pos).push(old(self)@.house.push(idx)[0]),
                    house: old(self)@.house.push(idx).drop_first(),
                    ..old(self)@
                }),
    {
        proof {
            use_type_invariant(&*self);
            self.lemma_view_ok();
        }
        let ghost p0 = self@;
        let n = self.endpoints.len();
        let mut pos: usize = 0;
        let alen = self.roster.active.len();
        while pos < alen && self.roster.active[pos] != idx
            invariant
                alen == self.roster.active@.len(),
                pos <= alen,
                forall|j: int| 0 <= j < pos ==> self.roster.active@[j] != idx,
            decreases alen - pos,
        {
            pos = pos + 1;
        }
        if pos == alen {
            proof {
                self.lemma_view_ok();
            }
            return;
        }
        let mut new_active = self.roster.active.clone();
        assert(new_active@ =~= p0.active);
        new_active.remove(pos);
        let mut new_house = self.roster.house.clone();
        assert(new_house@ =~= p0.house);
        new_house.push_back(idx);
        if new_house.len() == 1 {
            let mut recyclable: Vec<usize> = Vec::new();
            let mut i: usize = 0;
            while i < n
                invariant
                    n == p0.len(),
                    p0.house.len() == 0,
                    forall|x: usize| x < n ==> (p0.active + p0.house).contains(x),
                    p0.active + p0.house == p0.active,
                    new_active@ == p0.active.remove(pos as int),
                    pos < p0.active.len(),
                    p0.active[pos as int] == idx,
                    i <= n,
                    recyclable@.len() == 0,
                    new_house@ == p0.house.push(idx),
                decreases n - i,
            {
                proof {
                    assert((p0.active + p0.house).contains(i));
                    let j = choose|j: int| 0 <= j < p0.active.len() && p0.active[j] == i;
                    if j != pos {
                        if j < pos {
                            assert(new_active@[j] == i);
                        } else {
                            assert(new_active@[j - 1] == i);
                        }
                    }
                }
                if !contains_index(new_active.as_slice(), i) && i != idx {
                    recyclable.push(i);
                }
                i = i + 1;
            }
            shuffle_indices(&mut recyclable);
            proof {
                vstd::seq_lib::to_multiset_len(recyclable@);
                assert(recyclable@.len() == 0);
            }
            let mut k: usize = 0;
            while k < recyclable.len()
                invariant
                    recyclable@.len() == 0,
                    new_house@ == p0.house.push(idx),
                decreases recyclable@.len() - k,
            {
                new_house.push_back(recyclable[k]);
                k = k + 1;
            }
        }
        let ghost hh = new_house@;
        match new_house.pop_front() {
            Some(replacement) => {
                new_active.push(replacement);
            },
            None => {},
        }
        proof {
            lemma_demotion_keeps_roster(p0.active, p0.house, pos as int, n as nat);
            assert(hh =~= p0.house.push(idx));
        }
        self.roster = Roster { active: new_active, house: new_house };
        proof {
            self.lemma_view_ok();
        }
    }

    /// The name of the rotation strategy as reported.
    pub fn rotation_name(&self) -> (r: &'static str)
        ensures
            r@ == rotation_label(self@.rotation),
    {
        match self.rotation {
            RotationStrategy::RoundRobin => "round_robin",
            RotationStrategy::Weighted => "weighted",
            RotationStrategy::Latency => "latency",
        }
    }

    /// The status of every endpoint at `now_ms`, in configuration order; each
    /// endpoint's availability check may end a cooldown.
    pub fn endpoint_statuses(&mut self, now_ms: u64) -> (r: Vec<EndpointStatus>)
        ensures
            r@.len() == old(self)@.len(),
            forall|i: int| 0 <= i < r@.len() ==> {
                let st = #[trigger] r@[i];
                let snap = snapshot_of(old(self)@.health[i], now_ms);
                &&& st.url@ == redacted(old(self)@.endpoints[i].url)
                &&& st.weight == old(self)@.endpoints[i].weight
                &&& st.is_healthy == snap.is_healthy
                &&& st.is_throttled == snap.is_throttled
                &&& st.consecutive_failures == snap.consecutive_failures
                &&& st.block_height == snap.block_height
                &&& st.last_latency_ms == snap.last_latency_ms
                &&& st.request_count == snap.request_count
                &&& st.success_count == snap.success_count
                &&& st.failure_count == snap.failure_count
                &&& st.throttle_count == snap.throttle_count
                &&& st.roster_status == if old(self)@.active.contains(i as usize) {
                    RosterStatus::Active
                } else {
                    RosterStatus::Reserve
                }
            },
            final(self)@ == old(self)@.with_health(
                Seq::new(old(self)@.len(), |i: int| old(self)@.health[i].after_availability_check(now_ms)),
            ),
    {
        proof {
            use_type_invariant(&*self);
            self.lemma_view_ok();
        }
        let ghost p0 = self@;
        let n = self.endpoints.len();
        let active = self.roster.active.clone();
        assert(active@ =~= p0.active);
        let mut r: Vec<EndpointStatus> = Vec::new();
        let mut i: usize = 0;
        assert(p0.health =~= Seq::new(n as nat, |j: int| if j < 0 { p0.health[j].after_availability_check(now_ms) } else { p0.health[j] }));
        while i < n
            invariant
                n == p0.len(),
                p0 == old(self)@,
                p0.health.len() == n,
                active@ == p0.active,
                self.health@.len() == n,
                self.endpoints.deep_view() == p0.endpoints,
                i <= n,
                r@.len() == i,
                self@ == p0.with_health(Seq::new(n as nat, |j: int| if j < i { p0.health[j].after_availability_check(now_ms) } else { p0.health[j] })),
                forall|j: int| 0 <= j < i ==> {
                    let st = #[trigger] r@[j];
                    let snap = snapshot_of(p0.health[j], now_ms);
                    &&& st.url@ == redacted(p0.endpoints[j].url)
                    &&& st.weight == p0.endpoints[j].weight
                    &&& st.is_healthy == snap.is_healthy
                    &&& st.is_throttled == snap.is_throttled
                    &&& st.consecutive_failures == snap.consecutive_failures
                    &&& st.block_height == snap.block_height
                    &&& st.last_latency_ms == snap.last_latency_ms
                    &&& st.request_count == snap.request_count
                    &&& st.success_count == snap.success_count
                    &&& st.failure_count == snap.failure_count
                    &&& st.throttle_count == snap.throttle_count
                    &&& st.roster_status == if p0.active.contains(j as usize) {
                        RosterStatus::Active
                    } else {
                        RosterStatus::Reserve
                    }
                },
            decreases n - i,
        {
            proof {
                use_type_invariant(&*self);
            }
            let ghost before = self@.health;
            let snap = self.health[i].snapshot(now_ms);
            proof {
                self.lemma_health_update(p0.with_health(before), i, before[i as int].after_availability_check(now_ms));
                assert(self@.health =~= Seq::new(n as nat, |j: int| if j < i + 1 { p0.health[j].after_availability_check(now_ms) } else { p0.health[j] }));
            }
            let roster_status = if contains_index(active.as_slice(), i) {
                RosterStatus::Active
            } else {
                RosterStatus::Reserve
            };
            let ep = &self.endpoints[i];
            r.push(EndpointStatus {
                url: redact_url(ep.url.as_str()),
                weight: ep.weight,
                is_healthy: snap.is_healthy,
                is_throttled: snap.is_throttled,
                consecutive_failures: snap.consecutive_failures,
                block_height: snap.block_height,
                last_latency_ms: snap.last_latency_ms,
                request_count: snap.request_count,
                success_count: snap.success_count,
                failure_count: snap.failure_count,
                throttle_count: snap.throttle_count,
                roster_status,
            });
            i = i + 1;
        }
        assert(self@.health =~= Seq::new(n as nat, |i: int| p0.health[i].after_availability_check(now_ms)));
        r
    }
}

proof fn lemma_weight_sum_prefix(eps: Seq<EndpointView>, k: int)
    requires
        0 < k <= eps.len(),
    ensures
        weight_sum(eps.subrange(0, k)) == weight_sum(eps.subrange(0, k - 1)) + eps[k - 1].weight,
        weight_sum(eps.subrange(0, k)) <= weight_sum(eps),
    decreases eps.len() - k,
{
    assert(eps.subrange(0, k).drop_last() =~= eps.subrange(0, k - 1));
    if k < eps.len() {
        lemma_weight_sum_prefix(eps, k + 1);
    } else {
        assert(eps.subrange(0, k) =~= eps);
    }
}

} // verus!
