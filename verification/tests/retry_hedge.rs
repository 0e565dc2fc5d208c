use turbine::config::{
    ChainConfig, EndpointConfig, HealthConfig, HedgeConfig, RotationStrategy,
};
use turbine::health::pool::ChainPool;
use turbine::metrics::ChainMetrics;
use turbine::proxy::forwarder::ForwardError;
use turbine::proxy::hedge::{Hedge, HedgeAction, HedgeOutcome};
use turbine::proxy::retry::{Retry, RetryAction};

const NOW: u64 = 5_000_000;

fn ep(url: &str) -> EndpointConfig {
    EndpointConfig { url: url.to_string(), weight: 1, auth: None, methods: None, ws_url: None }
}

fn chain(n: usize, max_retries: u32, retry_delay_ms: u64, hedge: Option<HedgeConfig>) -> ChainConfig {
    let endpoints = (0..n).map(|i| ep(&format!("https://e{}.com", i))).collect();
    ChainConfig {
        name: "test".to_string(),
        route: "/test".to_string(),
        endpoints,
        health: HealthConfig {
            max_consecutive_failures: 3,
            cooldown_seconds: 30,
            health_method: None,
            health_check_interval_seconds: 30,
            max_block_lag: 10,
            max_retries,
            retry_delay_ms,
        },
        rotation: RotationStrategy::RoundRobin,
        cache: None,
        chain_id: None,
        rate_limit: None,
        hedge,
    }
}

#[test]
fn retry_start_without_eligible_endpoint_is_503() {
    // the only endpoint serves eth_call alone: nothing serves eth_getBalance
    let mut cfg = chain(1, 1, 0, None);
    cfg.endpoints[0].methods = Some(vec!["eth_call".to_string()]);
    let pool = ChainPool::new(&cfg);
    let mut metrics = ChainMetrics::new();
    match Retry::start(&pool, "eth_getBalance", 2, &mut metrics) {
        Err(e) => {
            assert_eq!(e.status, 503);
            assert_eq!(e.message, "No endpoints configured for method: eth_getBalance");
        }
        Ok(_) => panic!("expected an error"),
    }
    assert_eq!(metrics.failed_requests, 2);
}

#[test]
fn retry_first_attempt_succeeds() {
    let mut pool = ChainPool::new(&chain(2, 1, 0, None));
    let mut metrics = ChainMetrics::new();
    let mut retry = Retry::start(&pool, "eth_call", 1, &mut metrics).unwrap();
    let action = retry.next(&mut pool, &mut metrics, NOW);
    assert!(matches!(action, RetryAction::Select));
    let action = retry.select(&mut pool, &mut metrics, NOW);
    let idx = match action {
        RetryAction::Forward(idx, url) => {
            assert_eq!(url, format!("https://e{}.com", idx));
            idx
        }
        other => panic!("unexpected {:?}", other),
    };
    let action = retry.forward_finished(&mut pool, &mut metrics, Ok(42), NOW);
    assert!(matches!(action, RetryAction::Succeeded));
    assert_eq!(metrics.successful_requests, 1);
    assert_eq!(pool.health_state(idx).last_latency_ms, 42);
}

#[test]
fn retry_uses_another_endpoint_after_failure_with_backoff() {
    let mut pool = ChainPool::new(&chain(2, 2, 250, None));
    let mut metrics = ChainMetrics::new();
    let mut retry = Retry::start(&pool, "eth_call", 1, &mut metrics).unwrap();
    assert!(matches!(retry.next(&mut pool, &mut metrics, NOW), RetryAction::Select));
    let first = match retry.select(&mut pool, &mut metrics, NOW) {
        RetryAction::Forward(idx, _) => idx,
        other => panic!("unexpected {:?}", other),
    };
    let action = retry.forward_finished(
        &mut pool,
        &mut metrics,
        Err(ForwardError::ServerError(502)),
        NOW,
    );
    assert!(matches!(action, RetryAction::Continue));
    assert_eq!(retry.excluded(), &vec![first]);
    assert_eq!(pool.health_state(first).consecutive_failures, 1);
    // second attempt: 250 ms backoff, then another endpoint
    match retry.next(&mut pool, &mut metrics, NOW) {
        RetryAction::Sleep(ms) => assert_eq!(ms, 250),
        other => panic!("unexpected {:?}", other),
    }
    let second = match retry.next(&mut pool, &mut metrics, NOW) {
        RetryAction::Select => match retry.select(&mut pool, &mut metrics, NOW) {
            RetryAction::Forward(idx, _) => idx,
            other => panic!("unexpected {:?}", other),
        },
        other => panic!("unexpected {:?}", other),
    };
    assert_ne!(first, second);
    let _ = retry.forward_finished(&mut pool, &mut metrics, Err(ForwardError::Timeout), NOW);
    // third attempt: doubled backoff; both endpoints are excluded now
    match retry.next(&mut pool, &mut metrics, NOW) {
        RetryAction::Sleep(ms) => assert_eq!(ms, 500),
        other => panic!("unexpected {:?}", other),
    }
    assert!(matches!(retry.next(&mut pool, &mut metrics, NOW), RetryAction::Select));
    match retry.select(&mut pool, &mut metrics, NOW) {
        RetryAction::Respond(e) => {
            assert_eq!(e.status, 503);
            assert_eq!(e.message, "All endpoints are unhealthy");
        }
        other => panic!("unexpected {:?}", other),
    }
    assert_eq!(metrics.failed_requests, 1);
}

#[test]
fn retry_gives_up_after_all_attempts_with_last_error() {
    let mut pool = ChainPool::new(&chain(3, 1, 0, None));
    let mut metrics = ChainMetrics::new();
    let mut retry = Retry::start(&pool, "eth_call", 3, &mut metrics).unwrap();
    let _ = retry.next(&mut pool, &mut metrics, NOW);
    let _ = retry.select(&mut pool, &mut metrics, NOW);
    let _ = retry.forward_finished(&mut pool, &mut metrics, Err(ForwardError::Timeout), NOW);
    // zero base delay retries after 100 ms
    match retry.next(&mut pool, &mut metrics, NOW) {
        RetryAction::Sleep(ms) => assert_eq!(ms, 100),
        other => panic!("unexpected {:?}", other),
    }
    let _ = retry.next(&mut pool, &mut metrics, NOW);
    let _ = retry.select(&mut pool, &mut metrics, NOW);
    let _ = retry.forward_finished(
        &mut pool,
        &mut metrics,
        Err(ForwardError::ConnectionFailed("refused".to_string())),
        NOW,
    );
    match retry.next(&mut pool, &mut metrics, NOW) {
        RetryAction::Respond(e) => {
            assert_eq!(e.status, 502);
            assert_eq!(e.message, "All attempts failed: Connection failed: refused");
        }
        other => panic!("unexpected {:?}", other),
    }
    assert_eq!(metrics.failed_requests, 3);
    assert_eq!(retry.attempt(), 2);
}

#[test]
fn retry_rate_limit_records_throttle_not_failure() {
    let mut pool = ChainPool::new(&chain(2, 0, 0, None));
    let mut metrics = ChainMetrics::new();
    let mut retry = Retry::start(&pool, "eth_call", 1, &mut metrics).unwrap();
    let _ = retry.next(&mut pool, &mut metrics, NOW);
    let idx = match retry.select(&mut pool, &mut metrics, NOW) {
        RetryAction::Forward(idx, _) => idx,
        other => panic!("unexpected {:?}", other),
    };
    let action =
        retry.forward_finished(&mut pool, &mut metrics, Err(ForwardError::RateLimited), NOW);
    assert!(matches!(action, RetryAction::Continue));
    let h = pool.health_state(idx);
    assert_eq!(h.consecutive_failures, 0);
    assert_eq!(h.throttle_count, 1);
    assert!(h.is_healthy);
    assert_eq!(metrics.upstream_throttled, 1);
    match retry.next(&mut pool, &mut metrics, NOW) {
        RetryAction::Respond(e) => assert_eq!(e.message, "All attempts failed: Rate limited (429)"),
        other => panic!("unexpected {:?}", other),
    }
}

#[test]
fn retry_hedges_first_attempt_when_most_endpoints_are_healthy() {
    let hedge = HedgeConfig { delay_ms: 50, max_count: 1 };
    let mut pool = ChainPool::new(&chain(3, 1, 0, Some(hedge)));
    let mut metrics = ChainMetrics::new();
    let mut retry = Retry::start(&pool, "eth_call", 1, &mut metrics).unwrap();
    match retry.next(&mut pool, &mut metrics, NOW) {
        RetryAction::Hedge(cfg) => {
            assert_eq!(cfg.delay_ms, 50);
            assert_eq!(cfg.max_count, 1);
        }
        other => panic!("unexpected {:?}", other),
    }
    let action = retry.hedge_finished(
        &mut metrics,
        HedgeOutcome::AllFailed { last_err: "Request timed out".to_string(), failed: vec![0, 1] },
    );
    assert!(matches!(action, RetryAction::Continue));
    assert_eq!(retry.excluded(), &vec![0, 1]);
    assert_eq!(retry.attempt(), 1);
    match retry.next(&mut pool, &mut metrics, NOW) {
        RetryAction::Sleep(ms) => assert_eq!(ms, 100),
        other => panic!("unexpected {:?}", other),
    }
    let _ = retry.next(&mut pool, &mut metrics, NOW);
    match retry.select(&mut pool, &mut metrics, NOW) {
        RetryAction::Forward(idx, _) => assert_eq!(idx, 2),
        other => panic!("unexpected {:?}", other),
    }
}

#[test]
fn retry_hedge_without_endpoint_is_503() {
    let hedge = HedgeConfig { delay_ms: 50, max_count: 1 };
    let mut pool = ChainPool::new(&chain(2, 1, 0, Some(hedge)));
    let mut metrics = ChainMetrics::new();
    let mut retry = Retry::start(&pool, "eth_call", 4, &mut metrics).unwrap();
    assert!(matches!(retry.next(&mut pool, &mut metrics, NOW), RetryAction::Hedge(_)));
    match retry.hedge_finished(&mut metrics, HedgeOutcome::NoEndpoints) {
        RetryAction::Respond(e) => {
            assert_eq!(e.status, 503);
            assert_eq!(e.message, "All endpoints are unhealthy");
        }
        other => panic!("unexpected {:?}", other),
    }
    assert_eq!(metrics.failed_requests, 4);
}

#[test]
fn retry_backoff_caps_at_sixteen_times_base() {
    let mut pool = ChainPool::new(&chain(8, 7, 10, None));
    let mut metrics = ChainMetrics::new();
    let mut retry = Retry::start(&pool, "eth_call", 1, &mut metrics).unwrap();
    let mut delays = Vec::new();
    loop {
        match retry.next(&mut pool, &mut metrics, NOW) {
            RetryAction::Sleep(ms) => delays.push(ms),
            RetryAction::Select => match retry.select(&mut pool, &mut metrics, NOW) {
                RetryAction::Forward(_, _) => {
                    let _ = retry.forward_finished(
                        &mut pool,
                        &mut metrics,
                        Err(ForwardError::RequestFailed("x".to_string())),
                        NOW,
                    );
                }
                RetryAction::Respond(_) => break,
                other => panic!("unexpected {:?}", other),
            },
            RetryAction::Respond(e) => {
                assert_eq!(e.status, 502);
                break;
            }
            other => panic!("unexpected {:?}", other),
        }
    }
    // 5 active endpoints: after five failures no endpoint is left
    assert_eq!(delays, vec![10, 20, 40, 80, 160]);
}

#[test]
fn hedge_primary_success_wins() {
    let mut pool = ChainPool::new(&chain(3, 1, 0, None));
    let mut metrics = ChainMetrics::new();
    let (mut hedge, action) = Hedge::start(vec![0, 1, 2], HedgeConfig { delay_ms: 10, max_count: 2 }, 1);
    assert!(matches!(action, HedgeAction::Select));
    let primary = match hedge.select(&mut pool, &mut metrics, NOW) {
        HedgeAction::Fire(idx, _) => idx,
        other => panic!("unexpected {:?}", other),
    };
    assert!(hedge.can_hedge());
    let action = hedge.completed(&mut pool, &mut metrics, primary, Ok(7), NOW);
    assert!(matches!(action, HedgeAction::Finished(HedgeOutcome::Success)));
    assert_eq!(metrics.successful_requests, 1);
    assert_eq!(metrics.hedged_requests, 0);
}

#[test]
fn hedge_fires_extra_requests_on_timer_and_reports_all_failures() {
    let mut pool = ChainPool::new(&chain(3, 1, 0, None));
    let mut metrics = ChainMetrics::new();
    let (mut hedge, _) = Hedge::start(vec![0, 1, 2], HedgeConfig { delay_ms: 10, max_count: 1 }, 1);
    let primary = match hedge.select(&mut pool, &mut metrics, NOW) {
        HedgeAction::Fire(idx, _) => idx,
        other => panic!("unexpected {:?}", other),
    };
    assert!(matches!(hedge.timer_fired(), HedgeAction::Select));
    let extra = match hedge.select(&mut pool, &mut metrics, NOW) {
        HedgeAction::Fire(idx, _) => idx,
        other => panic!("unexpected {:?}", other),
    };
    assert_ne!(primary, extra);
    assert_eq!(metrics.hedged_requests, 1);
    assert!(!hedge.can_hedge());
    let action = hedge.completed(&mut pool, &mut metrics, primary, Err(ForwardError::Timeout), NOW);
    assert!(matches!(action, HedgeAction::Wait));
    match hedge.completed(&mut pool, &mut metrics, extra, Err(ForwardError::RateLimited), NOW) {
        HedgeAction::Finished(HedgeOutcome::AllFailed { last_err, failed }) => {
            assert_eq!(last_err, "Rate limited (429)");
            assert_eq!(failed, vec![primary, extra]);
        }
        other => panic!("unexpected {:?}", other),
    }
    assert_eq!(metrics.upstream_throttled, 1);
}

#[test]
fn hedge_replaces_a_lone_failed_request() {
    let mut pool = ChainPool::new(&chain(2, 1, 0, None));
    let mut metrics = ChainMetrics::new();
    let (mut hedge, _) = Hedge::start(vec![0, 1], HedgeConfig { delay_ms: 10, max_count: 1 }, 1);
    let primary = match hedge.select(&mut pool, &mut metrics, NOW) {
        HedgeAction::Fire(idx, _) => idx,
        other => panic!("unexpected {:?}", other),
    };
    let action = hedge.completed(&mut pool, &mut metrics, primary, Err(ForwardError::Timeout), NOW);
    assert!(matches!(action, HedgeAction::Select));
    let replacement = match hedge.select(&mut pool, &mut metrics, NOW) {
        HedgeAction::Fire(idx, _) => idx,
        other => panic!("unexpected {:?}", other),
    };
    assert_ne!(primary, replacement);
    match hedge.completed(&mut pool, &mut metrics, replacement, Err(ForwardError::Timeout), NOW) {
        HedgeAction::Finished(HedgeOutcome::AllFailed { last_err, failed }) => {
            assert_eq!(last_err, "Request timed out");
            assert_eq!(failed.len(), 2);
        }
        other => panic!("unexpected {:?}", other),
    }
}

#[test]
fn hedge_without_endpoints_reports_none() {
    let mut metrics = ChainMetrics::new();
    let (mut hedge, _) = Hedge::start(vec![], HedgeConfig { delay_ms: 10, max_count: 1 }, 1);
    let action = hedge.selected(&mut metrics, None);
    assert!(matches!(action, HedgeAction::Finished(HedgeOutcome::NoEndpoints)));
}
