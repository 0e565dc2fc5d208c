use turbine::proxy::batch::open_slots;
use turbine::config::{ChainConfig, EndpointAuth, EndpointConfig, HealthConfig, RotationStrategy};
use turbine::health::pool::ChainPool;
use turbine::metrics::ChainMetrics;
use turbine::proxy::auth::{authorize, extract_api_key, key_rate_limited_reply, AuthDecision};
use turbine::proxy::batch::{group_by_eligible, place_answers, route_batch};
use turbine::proxy::forwarder::{auth_header, classify_status, ForwardError};
use turbine::proxy::request::{
    accept_request, all_attempts_failed_reply, count_cache_lookup, read_request, unknown_chain_reply,
    ParsedBody, RequestKind,
};
use turbine::proxy::ws::{reconnected, relay_step, ws_target, RelayAction, RelayEvent};

fn ep(url: &str, methods: Option<Vec<&str>>) -> EndpointConfig {
    EndpointConfig {
        url: url.to_string(),
        weight: 1,
        auth: None,
        methods: methods.map(|m| m.into_iter().map(String::from).collect()),
        ws_url: None,
    }
}

fn chain(endpoints: Vec<EndpointConfig>) -> ChainConfig {
    ChainConfig {
        name: "test".to_string(),
        route: "/test".to_string(),
        endpoints,
        health: HealthConfig {
            max_consecutive_failures: 3,
            cooldown_seconds: 30,
            health_method: None,
            health_check_interval_seconds: 30,
            max_block_lag: 10,
            max_retries: 1,
            retry_delay_ms: 0,
        },
        rotation: RotationStrategy::RoundRobin,
        cache: None,
        chain_id: None,
        rate_limit: None,
        hedge: None,
    }
}

fn keys() -> Vec<String> {
    vec!["alpha".to_string(), "beta".to_string()]
}

#[test]
fn auth_is_open_without_keys() {
    assert!(matches!(authorize(&vec![], None, None), AuthDecision::Open));
}

#[test]
fn auth_bearer_key_is_granted_by_position() {
    assert!(matches!(authorize(&keys(), Some("Bearer beta"), None), AuthDecision::Granted(1)));
}

#[test]
fn auth_falls_back_to_x_api_key() {
    assert!(matches!(authorize(&keys(), Some("Basic abc"), Some("alpha")), AuthDecision::Granted(0)));
    assert_eq!(extract_api_key(Some("Token x"), Some("alpha")), Some("alpha".to_string()));
    assert_eq!(extract_api_key(Some("Bearer k"), Some("alpha")), Some("k".to_string()));
    assert_eq!(extract_api_key(None, None), None);
}

#[test]
fn auth_missing_or_blank_key_is_refused() {
    for decision in [authorize(&keys(), None, None), authorize(&keys(), Some("Bearer   "), None)] {
        match decision {
            AuthDecision::Denied(e) => {
                assert_eq!(e.status, 401);
                assert_eq!(e.code, -32600);
                assert_eq!(e.message, "Missing or invalid API key");
            }
            other => panic!("unexpected {:?}", other),
        }
    }
}

#[test]
fn auth_unknown_key_is_refused() {
    match authorize(&keys(), None, Some("gamma")) {
        AuthDecision::Denied(e) => {
            assert_eq!(e.status, 401);
            assert_eq!(e.code, -32600);
            assert_eq!(e.message, "Invalid API key");
        }
        other => panic!("unexpected {:?}", other),
    }
    let limited = key_rate_limited_reply();
    assert_eq!((limited.status, limited.code), (429, -32029));
    assert_eq!(limited.message, "Rate limit exceeded for API key");
}

#[test]
fn batch_groups_by_eligible_set_in_order() {
    let sets = vec![vec![0, 1], vec![2], vec![0, 1], vec![2], vec![1]];
    let groups = group_by_eligible(&sets);
    let shape: Vec<(Vec<usize>, Vec<usize>)> =
        groups.into_iter().map(|g| (g.eligible, g.positions)).collect();
    assert_eq!(
        shape,
        vec![(vec![0, 1], vec![0, 2]), (vec![2], vec![1, 3]), (vec![1], vec![4])]
    );
}

#[test]
fn batch_route_refuses_a_method_without_endpoints() {
    let pool = ChainPool::new(&chain(vec![
        ep("https://private.com", Some(vec!["eth_sendRawTransaction"])),
    ]));
    let mut metrics = ChainMetrics::new();
    let methods = vec!["eth_sendRawTransaction".to_string(), "eth_call".to_string()];
    match route_batch(&pool, &methods, 5, &mut metrics) {
        Err(e) => {
            assert_eq!(e.status, 503);
            assert_eq!(e.message, "No endpoints configured for method: eth_call");
        }
        Ok(_) => panic!("expected an error"),
    }
    assert_eq!(metrics.failed_requests, 5);
}

#[test]
fn batch_route_groups_methods() {
    let pool = ChainPool::new(&chain(vec![
        ep("https://private.com", Some(vec!["eth_sendRawTransaction"])),
        ep("https://public.com", None),
    ]));
    let mut metrics = ChainMetrics::new();
    let methods = vec![
        "eth_call".to_string(),
        "eth_sendRawTransaction".to_string(),
        "eth_getBalance".to_string(),
    ];
    let groups = route_batch(&pool, &methods, 3, &mut metrics).unwrap();
    assert_eq!(groups.len(), 2);
    assert_eq!((groups[0].eligible.clone(), groups[0].positions.clone()), (vec![1], vec![0, 2]));
    assert_eq!((groups[1].eligible.clone(), groups[1].positions.clone()), (vec![0], vec![1]));
    assert_eq!(metrics.failed_requests, 0);
}

#[test]
fn batch_answers_return_to_their_positions() {
    let mut slots: Vec<Option<&str>> = vec![Some("cached"), None, None, None];
    place_answers(&mut slots, &vec![3, 1], vec!["a", "b", "surplus"]);
    assert_eq!(slots, vec![Some("cached"), Some("b"), None, Some("a")]);
    place_answers(&mut slots, &vec![2, 0], vec!["c"]);
    assert_eq!(slots, vec![Some("cached"), Some("b"), Some("c"), Some("a")]);
}

#[test]
fn forward_status_classification() {
    assert!(matches!(classify_status(429), Some(ForwardError::RateLimited)));
    assert!(matches!(classify_status(503), Some(ForwardError::ServerError(503))));
    assert!(classify_status(200).is_none());
    assert!(classify_status(404).is_none());
}

#[test]
fn forward_error_messages() {
    assert_eq!(ForwardError::Timeout.message(), "Request timed out");
    assert_eq!(ForwardError::ServerError(502).message(), "Server error (502)");
    assert_eq!(ForwardError::RateLimited.message(), "Rate limited (429)");
    assert_eq!(
        ForwardError::ConnectionFailed("dns".to_string()).message(),
        "Connection failed: dns"
    );
    assert_eq!(ForwardError::RequestFailed("body".to_string()).message(), "Request failed: body");
}

#[test]
fn auth_headers_for_each_credential_kind() {
    let basic = EndpointAuth::Basic { username: "user".to_string(), password: "pass".to_string() };
    assert_eq!(auth_header(&basic), ("Authorization".to_string(), "Basic dXNlcjpwYXNz".to_string()));
    let rpc = EndpointAuth::Basic { username: "rpcuser".to_string(), password: "p1".to_string() };
    assert_eq!(auth_header(&rpc).1, "Basic cnBjdXNlcjpwMQ==");
    let bearer = EndpointAuth::Bearer("tok".to_string());
    assert_eq!(auth_header(&bearer), ("Authorization".to_string(), "Bearer tok".to_string()));
    let header = EndpointAuth::Header { name: "x-api-key".to_string(), value: "k".to_string() };
    assert_eq!(auth_header(&header), ("x-api-key".to_string(), "k".to_string()));
}

#[test]
fn request_body_classification() {
    let (parsed, kind) = read_request(br#"{"jsonrpc":"2.0","method":"eth_call","id":1}"#);
    assert!(matches!(parsed, ParsedBody::Single(_)));
    assert_eq!(kind.unwrap(), RequestKind { count: 1, is_batch: false });
    let (parsed, kind) = read_request(br#"[{"id":1},{"id":2},{"id":3}]"#);
    assert!(matches!(parsed, ParsedBody::Batch(_)));
    assert_eq!(kind.unwrap(), RequestKind { count: 3, is_batch: true });
    let err = read_request(b"not json").1.unwrap_err();
    assert_eq!((err.status, err.message.as_str()), (400, "Invalid JSON body"));
    let err = read_request(b"[]").1.unwrap_err();
    assert_eq!((err.status, err.message.as_str()), (400, "Empty batch request"));
    let err = read_request(b"42").1.unwrap_err();
    assert_eq!(
        (err.status, err.message.as_str()),
        (400, "Request must be a JSON-RPC object or batch array")
    );
}

#[test]
fn request_acceptance_and_rate_limit() {
    let mut metrics = ChainMetrics::new();
    assert!(accept_request(&mut metrics, RequestKind { count: 3, is_batch: true }, true).is_ok());
    let err = accept_request(&mut metrics, RequestKind { count: 1, is_batch: false }, false).unwrap_err();
    assert_eq!((err.status, err.message.as_str()), (429, "Rate limit exceeded"));
    assert_eq!(metrics.total_requests, 4);
    assert_eq!(metrics.rate_limited_requests, 1);
}

#[test]
fn cache_lookups_are_counted() {
    let mut metrics = ChainMetrics::new();
    count_cache_lookup(&mut metrics, true, true);
    count_cache_lookup(&mut metrics, true, false);
    count_cache_lookup(&mut metrics, false, true);
    assert_eq!(metrics.cache_hits, 2);
    assert_eq!(metrics.cache_misses, 1);
    assert_eq!(metrics.successful_requests, 1);
}

#[test]
fn proxy_error_replies() {
    let r = unknown_chain_reply("dogecoin");
    assert_eq!((r.status, r.message.as_str()), (404, "Unknown chain: dogecoin"));
    let r = all_attempts_failed_reply("Request timed out");
    assert_eq!((r.status, r.message.as_str()), (502, "All attempts failed: Request timed out"));
}

#[test]
fn ws_relay_decisions() {
    let mut metrics = ChainMetrics::new();
    assert_eq!(relay_step(RelayEvent::FromClient { is_close: false }, &mut metrics), RelayAction::ToUpstream);
    assert_eq!(relay_step(RelayEvent::FromUpstream { is_close: false }, &mut metrics), RelayAction::ToClient);
    assert_eq!(relay_step(RelayEvent::FromClient { is_close: true }, &mut metrics), RelayAction::CloseUpstream);
    assert_eq!(
        relay_step(RelayEvent::FromUpstream { is_close: true }, &mut metrics),
        RelayAction::Reconnect { close_client: true }
    );
    assert_eq!(relay_step(RelayEvent::UpstreamError, &mut metrics), RelayAction::Reconnect { close_client: true });
    assert_eq!(relay_step(RelayEvent::UpstreamEnded, &mut metrics), RelayAction::Reconnect { close_client: false });
    assert_eq!(relay_step(RelayEvent::ClientEnded, &mut metrics), RelayAction::Stop);
    assert_eq!(relay_step(RelayEvent::ClientError, &mut metrics), RelayAction::Stop);
    assert_eq!(metrics.ws_messages_relayed, 2);
}

#[test]
fn ws_target_and_reconnect_notice() {
    let mut with_ws = ep("https://a.com", None);
    with_ws.ws_url = Some("wss://stream.a.com".to_string());
    let pool = ChainPool::new(&chain(vec![with_ws, ep("http://b.com:8545", None), ep("ipc://c", None)]));
    assert_eq!(ws_target(&pool, Some((0, String::new()))), Some((0, "wss://stream.a.com".to_string())));
    assert_eq!(ws_target(&pool, Some((1, String::new()))), Some((1, "ws://b.com:8545".to_string())));
    assert_eq!(ws_target(&pool, Some((2, String::new()))), None);
    assert_eq!(ws_target(&pool, None), None);
    let mut metrics = ChainMetrics::new();
    assert_eq!(
        reconnected(&mut metrics),
        r#"{"jsonrpc":"2.0","method":"turbine_reconnected","params":{"reason":"upstream_disconnect"}}"#
    );
    assert_eq!(metrics.ws_reconnections, 1);
}

#[test]
fn batch_open_slots_are_the_uncached_positions() {
    let slots = vec![Some(1), None, Some(3), None, None];
    assert_eq!(open_slots(&slots), vec![1, 3, 4]);
    let all: Vec<Option<u8>> = vec![Some(1), Some(2)];
    assert!(open_slots(&all).is_empty());
}
