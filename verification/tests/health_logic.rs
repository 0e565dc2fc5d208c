use turbine::config::{ChainConfig, EndpointConfig, HealthConfig, RotationStrategy};
use turbine::health::checker::{check_response, HealthCheckResult, HealthReport};
use turbine::health::pool::ChainPool;
use turbine::health::state::EndpointHealth;

const T0: u64 = 10_000_000;

fn chain(n: usize, rotation: RotationStrategy) -> ChainConfig {
    let endpoints = (0..n)
        .map(|i| EndpointConfig {
            url: format!("https://e{}.com", i),
            weight: (i as u32) + 1,
            auth: None,
            methods: None,
            ws_url: None,
        })
        .collect();
    ChainConfig {
        name: "test".to_string(),
        route: "/test".to_string(),
        endpoints,
        health: HealthConfig {
            max_consecutive_failures: 2,
            cooldown_seconds: 30,
            health_method: None,
            health_check_interval_seconds: 30,
            max_block_lag: 10,
            max_retries: 1,
            retry_delay_ms: 0,
        },
        rotation,
        cache: None,
        chain_id: None,
        rate_limit: None,
        hedge: None,
    }
}

#[test]
fn endpoint_turns_unhealthy_after_max_failures() {
    let mut h = EndpointHealth::new();
    h.record_failure(3, 30, T0);
    h.record_failure(3, 30, T0 + 1);
    assert!(h.is_healthy());
    assert_eq!(h.consecutive_failures(), 2);
    h.record_failure(3, 30, T0 + 2);
    assert!(!h.is_healthy());
    assert!(!h.is_available(T0 + 3));
}

#[test]
fn endpoint_recovers_after_cooldown_and_success() {
    let mut h = EndpointHealth::new();
    h.record_failure(1, 30, T0);
    assert!(!h.is_available(T0 + 29_999));
    // the cooldown has run out: probing is allowed again
    assert!(h.is_available(T0 + 30_000));
    h.record_failure(1, 30, T0 + 30_001);
    assert!(!h.is_healthy());
    h.record_success();
    assert!(h.is_healthy());
    assert_eq!(h.consecutive_failures(), 0);
    assert!(h.is_available(T0 + 30_002));
}

#[test]
fn throttle_is_not_a_failure() {
    let mut h = EndpointHealth::new();
    h.record_throttle(T0);
    assert!(h.is_healthy());
    assert_eq!(h.consecutive_failures(), 0);
    assert!(h.is_throttled(T0 + 1));
    assert!(!h.is_available(T0 + 1));
    let snap = h.snapshot(T0 + 1);
    assert_eq!(snap.throttle_count, 1);
    assert_eq!(snap.failure_count, 0);
    assert_eq!(snap.request_count, 1);
}

#[test]
fn failed_earlier_prefers_never_failed() {
    let never = EndpointHealth::new();
    let mut failed = EndpointHealth::new();
    failed.record_failure(1, 30, T0);
    assert!(never.failed_earlier_than(&failed));
    assert!(!failed.failed_earlier_than(&never));
    assert!(failed.should_retry(30, T0 + 30_000));
    assert!(!failed.should_retry(30, T0 + 29_000));
}

#[test]
fn health_check_status_and_body() {
    assert_eq!(check_response(429, b""), HealthCheckResult::Throttled);
    assert_eq!(check_response(500, br#"{"result":"0x10"}"#), HealthCheckResult::Failed);
    assert_eq!(check_response(200, br#"{"jsonrpc":"2.0","result":"0x1a2b3c","id":1}"#), HealthCheckResult::Height(0x1a2b3c));
    assert_eq!(check_response(200, br#"{"result":"0x0x1f"}"#), HealthCheckResult::Height(0x1f));
    assert_eq!(check_response(200, br#"{"result":123456789}"#), HealthCheckResult::Height(123456789));
    assert_eq!(check_response(200, br#"{"result":"zz"}"#), HealthCheckResult::Failed);
    assert_eq!(check_response(200, br#"{"result":-5}"#), HealthCheckResult::Failed);
    assert_eq!(check_response(200, br#"{"error":"x"}"#), HealthCheckResult::Failed);
    assert_eq!(check_response(204, b"not json"), HealthCheckResult::Failed);
}

#[test]
fn health_round_marks_lagging_endpoint_stale() {
    let mut pool = ChainPool::new(&chain(3, RotationStrategy::RoundRobin));
    let reports = vec![
        HealthReport { idx: 0, result: HealthCheckResult::Height(1000), latency_ms: 20 },
        HealthReport { idx: 1, result: HealthCheckResult::Height(985), latency_ms: 30 },
        HealthReport { idx: 2, result: HealthCheckResult::Failed, latency_ms: 40 },
    ];
    let before = pool.health_state(2);
    pool.apply_health_round(&reports, 10, T0);
    let leader = pool.health_state(0);
    assert!(leader.is_healthy);
    assert_eq!(leader.block_height, 1000);
    assert_eq!(leader.last_latency_ms, 20);
    let lagging = pool.health_state(1);
    assert!(!lagging.is_healthy);
    assert_eq!(lagging.block_height, 985);
    assert_eq!(lagging.unhealthy_until, Some(T0 + 30_000));
    // a failed check leaves the record as it was
    let failed = pool.health_state(2);
    assert_eq!(failed.consecutive_failures, before.consecutive_failures);
    assert_eq!(failed.last_latency_ms, before.last_latency_ms);
    assert_eq!(failed.request_count, before.request_count);
}

#[test]
fn health_round_recovers_caught_up_endpoint_and_records_throttles() {
    let mut pool = ChainPool::new(&chain(2, RotationStrategy::RoundRobin));
    pool.record_failure(1, T0);
    pool.record_failure(1, T0);
    assert!(!pool.health_state(1).is_healthy);
    let reports = vec![
        HealthReport { idx: 0, result: HealthCheckResult::Throttled, latency_ms: 5 },
        HealthReport { idx: 1, result: HealthCheckResult::Height(77), latency_ms: 9 },
    ];
    pool.apply_health_round(&reports, 10, T0 + 1);
    assert!(pool.health_state(1).is_healthy);
    assert_eq!(pool.health_state(0).throttle_count, 1);
}

#[test]
fn health_round_without_heights_only_records_latency() {
    let mut pool = ChainPool::new(&chain(2, RotationStrategy::RoundRobin));
    let reports = vec![
        HealthReport { idx: 0, result: HealthCheckResult::Height(0), latency_ms: 15 },
        HealthReport { idx: 1, result: HealthCheckResult::Throttled, latency_ms: 9 },
    ];
    pool.apply_health_round(&reports, 10, T0);
    assert_eq!(pool.health_state(0).last_latency_ms, 15);
    assert_eq!(pool.health_state(0).block_height, pool.health_state(1).block_height);
    assert_eq!(pool.health_state(1).throttle_count, 0);
}

#[test]
fn selection_skips_excluded_endpoints() {
    let mut pool = ChainPool::new(&chain(3, RotationStrategy::RoundRobin));
    for _ in 0..10 {
        let (idx, _) = pool.next_endpoint_from_eligible(&[0, 1, 2], &[1], T0).unwrap();
        assert_ne!(idx, 1);
    }
    assert!(pool.next_endpoint_from_eligible(&[0, 1], &[0, 1], T0).is_none());
}

#[test]
fn round_robin_cycles_through_endpoints() {
    let mut pool = ChainPool::new(&chain(3, RotationStrategy::RoundRobin));
    let picks: Vec<usize> =
        (0..6).map(|_| pool.next_endpoint_from_eligible(&[0, 1, 2], &[], T0).unwrap().0).collect();
    assert_eq!(picks, vec![0, 1, 2, 0, 1, 2]);
}

#[test]
fn weighted_rotation_follows_weights() {
    // weights 1, 2, 3
    let mut pool = ChainPool::new(&chain(3, RotationStrategy::Weighted));
    let mut counts = [0usize; 3];
    for _ in 0..6 {
        let (idx, _) = pool.next_endpoint_from_eligible(&[0, 1, 2], &[], T0).unwrap();
        counts[idx] += 1;
    }
    assert_eq!(counts, [1, 2, 3]);
}

#[test]
fn all_unhealthy_falls_back_to_least_recently_failed() {
    let mut pool = ChainPool::new(&chain(2, RotationStrategy::RoundRobin));
    pool.record_failure(0, T0 + 5);
    pool.record_failure(0, T0 + 5);
    pool.record_failure(1, T0);
    pool.record_failure(1, T0);
    let (idx, url) = pool.next_endpoint_from_eligible(&[0, 1], &[], T0 + 10).unwrap();
    assert_eq!(idx, 1);
    assert_eq!(url, "https://e1.com");
}

#[test]
fn zero_cooldown_retries_at_once() {
    let mut h = EndpointHealth::new();
    h.record_failure(1, 0, T0);
    assert!(!h.is_healthy());
    assert!(h.is_available(T0));
    assert!(h.is_healthy());
    let mut m = EndpointHealth::new();
    m.mark_unhealthy_with_cooldown(0, T0);
    assert!(m.is_available(T0));
}

#[test]
fn throttle_backoff_doubles_up_to_thirty_seconds() {
    let mut h = EndpointHealth::new();
    let mut expected = Vec::new();
    let mut got = Vec::new();
    let mut t = T0;
    for k in 0..7u32 {
        h.record_throttle(t);
        expected.push(std::cmp::min(1000u64 << k, 30_000));
        // still throttled just before the end of the backoff, free at its end
        let mut probe = 1u64;
        while h.is_throttled(t + probe) {
            probe += 1;
        }
        got.push(probe);
        t += 100_000;
    }
    assert_eq!(got, expected);
    h.record_success();
    h.record_throttle(t);
    assert!(h.is_throttled(t + 999));
    assert!(!h.is_throttled(t + 1000));
}

#[test]
fn weighted_rotation_falls_back_when_its_slot_is_throttled() {
    // weights 1 and 2; endpoint 1 is healthy but throttled
    let mut pool = ChainPool::new(&chain(2, RotationStrategy::Weighted));
    pool.record_throttle(1, T0);
    for _ in 0..6 {
        let (idx, url) = pool.next_endpoint_from_eligible(&[0, 1], &[], T0 + 1).unwrap();
        assert_eq!(idx, 0);
        assert_eq!(url, "https://e0.com");
    }
    assert!(pool.next_endpoint(T0 + 1).is_some());
    assert!(pool.next_endpoint_from_eligible(&[0, 1], &[0, 1], T0 + 1).is_none());
    assert!(pool.next_endpoint_from_eligible(&[], &[], T0 + 1).is_none());
}

#[test]
fn round_robin_skips_unavailable_endpoints() {
    let mut pool = ChainPool::new(&chain(3, RotationStrategy::RoundRobin));
    pool.record_failure(0, T0);
    pool.record_failure(0, T0);
    pool.record_throttle(2, T0);
    for _ in 0..4 {
        let (idx, _) = pool.next_endpoint_from_eligible(&[0, 1, 2], &[], T0 + 1).unwrap();
        assert_eq!(idx, 1);
    }
}
