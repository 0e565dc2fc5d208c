use turbine::config::health_method_for_lowercase;
use turbine::cache::{cache_capacity, hash_text, CacheKey, CachePreset, TtlTable};
use turbine::config::{
    default_health_method, resolve_health_method, ApiKeyConfig, CacheConfig, CacheMethodConfig,
    ChainConfig, Config, ConfigError, EndpointConfig, HealthConfig, HedgeConfig, RateLimitConfig,
    RotationStrategy, ServerConfig,
};
use std::hash::{Hash, Hasher};
use turbine::metrics::ChainMetrics;
use turbine::proxy::router::{route_key, RouteTable};
use turbine::Turbine;

fn ep(url: &str, weight: u32) -> EndpointConfig {
    EndpointConfig { url: url.to_string(), weight, auth: None, methods: None, ws_url: None }
}

fn chain(name: &str, route: &str, endpoints: Vec<EndpointConfig>) -> ChainConfig {
    ChainConfig {
        name: name.to_string(),
        route: route.to_string(),
        endpoints,
        health: HealthConfig {
            max_consecutive_failures: 3,
            cooldown_seconds: 30,
            health_method: None,
            health_check_interval_seconds: 30,
            max_block_lag: 10,
            max_retries: 1,
            retry_delay_ms: 0,
        },
        rotation: RotationStrategy::RoundRobin,
        cache: None,
        chain_id: None,
        rate_limit: None,
        hedge: None,
    }
}

fn config(chains: Vec<ChainConfig>, api_keys: Vec<ApiKeyConfig>) -> Config {
    Config {
        server: ServerConfig {
            host: "127.0.0.1".to_string(),
            port: 8080,
            dashboard_secret: None,
            api_keys,
        },
        chains,
    }
}

fn message(r: Result<(), ConfigError>) -> String {
    r.unwrap_err().message()
}

#[test]
fn valid_config_passes() {
    let c = config(vec![chain("eth", "/eth", vec![ep("https://a", 1)])], vec![]);
    assert!(c.validate().is_ok());
}

#[test]
fn config_errors_name_the_problem() {
    assert_eq!(message(config(vec![], vec![]).validate()), "At least one chain must be configured");
    assert_eq!(
        message(config(vec![chain("eth", "/eth", vec![])], vec![]).validate()),
        "Chain 'eth' has no endpoints configured"
    );
    assert_eq!(
        message(config(vec![chain("eth", "eth", vec![ep("https://a", 1)])], vec![]).validate()),
        "Chain 'eth' route must start with '/'"
    );
    let mut weighted = chain("eth", "/eth", vec![ep("https://a", 0)]);
    weighted.rotation = RotationStrategy::Weighted;
    assert_eq!(
        message(config(vec![weighted], vec![]).validate()),
        "Chain 'eth' uses weighted rotation but all weights are 0"
    );
    let mut hedged = chain("eth", "/eth", vec![ep("https://a", 1)]);
    hedged.hedge = Some(HedgeConfig { delay_ms: 10, max_count: 1 });
    assert_eq!(
        message(config(vec![hedged], vec![]).validate()),
        "Chain 'eth' uses hedging but has fewer than 2 endpoints"
    );
    let mut limited = chain("eth", "/eth", vec![ep("https://a", 1)]);
    limited.rate_limit = Some(RateLimitConfig { max_requests: 0, window_seconds: 1 });
    assert_eq!(
        message(config(vec![limited], vec![]).validate()),
        "Chain 'eth' rate_limit.max_requests must be > 0"
    );
    let two = || vec![ep("https://a", 1), ep("https://b", 1)];
    let mut delay_zero = chain("eth", "/eth", two());
    delay_zero.hedge = Some(HedgeConfig { delay_ms: 0, max_count: 1 });
    assert_eq!(
        message(config(vec![delay_zero], vec![]).validate()),
        "Chain 'eth' hedge.delay_ms must be > 0"
    );
    let mut count_zero = chain("eth", "/eth", two());
    count_zero.hedge = Some(HedgeConfig { delay_ms: 5, max_count: 0 });
    assert_eq!(
        message(config(vec![count_zero], vec![]).validate()),
        "Chain 'eth' hedge.max_count must be > 0"
    );
    let mut window_zero = chain("eth", "/eth", two());
    window_zero.rate_limit = Some(RateLimitConfig { max_requests: 5, window_seconds: 0 });
    assert_eq!(
        message(config(vec![window_zero], vec![]).validate()),
        "Chain 'eth' rate_limit.window_seconds must be > 0"
    );
    let mut a = chain("a", "/a", vec![ep("https://a", 1)]);
    a.chain_id = Some(1);
    let mut b = chain("b", "/b", vec![ep("https://b", 1)]);
    b.chain_id = Some(1);
    assert_eq!(message(config(vec![a, b], vec![]).validate()), "Duplicate chain_id 1 in config");
}

#[test]
fn api_key_errors() {
    let chains = || vec![chain("eth", "/eth", vec![ep("https://a", 1)])];
    let key = |name: &str, key: &str| ApiKeyConfig {
        name: name.to_string(),
        key: key.to_string(),
        rate_limit: None,
    };
    assert_eq!(
        message(config(chains(), vec![key("ci", "  ")]).validate()),
        "api_key 'ci' has an empty key string"
    );
    assert_eq!(
        message(config(chains(), vec![key("a", "k"), key("b", "k")]).validate()),
        "Duplicate api key value for name 'b'"
    );
    let mut no_requests = key("a", "k");
    no_requests.rate_limit = Some(RateLimitConfig { max_requests: 0, window_seconds: 5 });
    assert_eq!(
        message(config(chains(), vec![no_requests]).validate()),
        "api_key 'a' rate_limit.max_requests must be > 0"
    );
    let mut limited = key("a", "k");
    limited.rate_limit = Some(RateLimitConfig { max_requests: 5, window_seconds: 0 });
    assert_eq!(
        message(config(chains(), vec![limited]).validate()),
        "api_key 'a' rate_limit.window_seconds must be > 0"
    );
}

#[test]
fn health_methods_by_chain_family() {
    assert_eq!(default_health_method("Solana-Mainnet"), "getSlot");
    assert_eq!(default_health_method("starknet"), "starknet_blockNumber");
    assert_eq!(default_health_method("BTC"), "getblockcount");
    assert_eq!(default_health_method("bitcoin-testnet"), "getblockcount");
    assert_eq!(default_health_method("ethereum"), "eth_blockNumber");
    assert_eq!(resolve_health_method("solana", &Some("custom".to_string())), "custom");
    assert_eq!(resolve_health_method("solana", &None), "getSlot");
}

#[test]
fn cache_presets_and_overrides() {
    assert_eq!(CachePreset::from_str("EVM"), CachePreset::Evm);
    assert_eq!(CachePreset::from_str("solana"), CachePreset::Solana);
    assert_eq!(CachePreset::from_str("other"), CachePreset::NoPreset);
    assert_eq!(CachePreset::from_chain_name("my-Solana"), CachePreset::Solana);
    assert_eq!(CachePreset::from_chain_name("bitcoin"), CachePreset::Evm);
    let evm = CachePreset::Evm.default_ttls();
    assert_eq!(evm.get("eth_chainId"), Some(86400));
    assert_eq!(evm.get("eth_getCode"), Some(300));
    assert_eq!(evm.get("eth_blockNumber"), None);
    let cfg = CacheConfig {
        enabled: true,
        preset: Some("evm".to_string()),
        max_capacity: None,
        methods: vec![
            CacheMethodConfig { name: "eth_blockNumber".to_string(), ttl_seconds: 5 },
            CacheMethodConfig { name: "eth_chainId".to_string(), ttl_seconds: 60 },
        ],
    };
    let table = TtlTable::for_cache(&cfg, "ethereum");
    assert_eq!(table.get("eth_blockNumber"), Some(5));
    assert_eq!(table.get("eth_chainId"), Some(60));
    assert!(table.contains("net_version"));
    assert_eq!(cache_capacity(&cfg), 10000);
    let solana = TtlTable::for_cache(
        &CacheConfig { enabled: true, preset: None, max_capacity: Some(7), methods: vec![] },
        "solana",
    );
    assert_eq!(solana.get("getVersion"), Some(3600));
    let mut t = TtlTable::new();
    t.insert("m".to_string(), 1);
    t.insert("m".to_string(), 2);
    assert_eq!(t.get("m"), Some(2));
}

#[test]
fn cache_keys_follow_method_and_params() {
    let a = CacheKey::new("eth_getBalance", &serde_json::Value::Array(vec![serde_json::Value::from("0xabc")]));
    let b = CacheKey::from_params_text("eth_getBalance", "[\"0xabc\"]");
    assert_eq!(a, b);
    let c = CacheKey::from_params_text("eth_getBalance", "[\"0xdef\"]");
    assert_ne!(a, c);
    assert_eq!(hash_text("x"), hash_text("x"));
    assert_ne!(hash_text("x"), hash_text("y"));
    let mut h = std::collections::hash_map::DefaultHasher::new();
    "[\"0xabc\"]".hash(&mut h);
    assert_eq!(b.params_hash, h.finish());
}

#[test]
fn builder_sets_chain_defaults() {
    let t = Turbine::builder()
        .add_chain("ethereum")
        .endpoint("https://a")
        .weighted_endpoint("https://b", 3)
        .max_failures(5)
        .done()
        .build()
        .unwrap();
    assert_eq!(t.host(), "127.0.0.1");
    assert_eq!(t.port(), 8080);
    let c = t.config();
    assert_eq!(c.chains.len(), 1);
    assert_eq!(c.chains[0].route, "/ethereum");
    assert_eq!(c.chains[0].endpoints[1].weight, 3);
    assert_eq!(c.chains[0].health.max_consecutive_failures, 5);
    assert_eq!(c.chains[0].health.cooldown_seconds, 30);
    assert!(matches!(Turbine::builder().build(), Err(ConfigError::NoChains)));
}

#[test]
fn routes_resolve_by_key_and_chain_id() {
    let mut eth = chain("eth", "/eth/", vec![ep("https://a", 1)]);
    eth.chain_id = Some(1);
    let mut base = chain("base", "//base", vec![ep("https://b", 1)]);
    base.chain_id = Some(8453);
    let table = RouteTable::new(&config(vec![eth, base], vec![]));
    assert_eq!(route_key("/eth/"), "eth/");
    assert_eq!(table.resolve("base"), Some(1));
    assert_eq!(table.resolve("8453"), Some(1));
    assert_eq!(table.resolve("1"), Some(0));
    assert_eq!(table.resolve("eth"), None);
    assert_eq!(table.resolve("polygon"), None);
}

#[test]
fn metrics_counters_wrap() {
    let mut m = ChainMetrics::new();
    m.record_requests(u64::MAX);
    m.record_requests(2);
    assert_eq!(m.total_requests, 1);
    m.record_ws_connection_opened();
    m.record_ws_connection_closed();
    m.record_ws_connection_closed();
    assert_eq!(m.ws_active_connections, u64::MAX);
    assert_eq!(m.ws_connections_total, 1);
    let s = m.snapshot("eth", 3, 4);
    assert_eq!(s.chain, "eth");
    assert_eq!((s.active_endpoints, s.total_endpoints), (3, 4));
}

#[test]
fn endpoints_with_empty_method_lists_are_listed_in_order() {
    let mut a = chain("a", "/a", vec![ep("https://a1", 1), ep("https://a2", 1)]);
    a.endpoints[1].methods = Some(vec![]);
    let mut b = chain("b", "/b", vec![ep("https://b1", 1), ep("https://b2", 1)]);
    b.endpoints[0].methods = Some(vec![]);
    b.endpoints[1].methods = Some(vec!["eth_call".to_string()]);
    let c = config(vec![a, b], vec![]);
    assert_eq!(
        c.endpoints_with_empty_methods(),
        vec![
            ("https://a2".to_string(), "a".to_string()),
            ("https://b1".to_string(), "b".to_string())
        ]
    );
}

#[test]
fn rate_limit_period_divides_the_window() {
    let rl = RateLimitConfig { max_requests: 3, window_seconds: 1 };
    assert_eq!(rl.period(), (0, 333_333_333));
    let rl = RateLimitConfig { max_requests: 4, window_seconds: 10 };
    assert_eq!(rl.period(), (2, 500_000_000));
    let rl = RateLimitConfig { max_requests: 7, window_seconds: 3 };
    let d = std::time::Duration::from_secs(3) / 7;
    assert_eq!(rl.period(), (d.as_secs(), d.subsec_nanos()));
}

#[test]
fn lowercase_names_pick_presets_and_health_methods() {
    assert_eq!(CachePreset::from_lowercase_chain_name("my-solana"), CachePreset::Solana);
    assert_eq!(CachePreset::from_lowercase_chain_name("polygon"), CachePreset::Evm);
    assert_eq!(CachePreset::from_lowercase_str("evm"), CachePreset::Evm);
    assert_eq!(CachePreset::from_lowercase_str("EVM"), CachePreset::NoPreset);
    assert_eq!(CachePreset::from_lowercase_str("none"), CachePreset::NoPreset);
    assert_eq!(health_method_for_lowercase("bitcoin-testnet"), "getblockcount");
    assert_eq!(health_method_for_lowercase("BTC"), "eth_blockNumber");
    assert_eq!(health_method_for_lowercase("starknet"), "starknet_blockNumber");
}

#[test]
fn cache_hits_add_up_over_calls() {
    let mut m = ChainMetrics::new();
    m.record_cache_miss();
    for _ in 0..25 {
        m.record_cache_hit();
    }
    assert_eq!(m.cache_hits, 25);
    assert_eq!(m.cache_misses, 1);
    assert_eq!(m.total_requests, 0);
}
