//! Turbine: a multi-chain JSON-RPC proxy with endpoint rotation, health
//! tracking and response caching.
//!
//! This crate holds the proxy's logic with its proofs: configuration and
//! its validation, the endpoint pool and its rotation, health bookkeeping,
//! cache policy, metrics, and the decisions of request handling.
pub mod cache;
pub mod config;
pub mod health;
pub mod metrics;
pub mod proxy;
pub mod text;

use crate::config::{
    CacheConfig, CacheMethodConfig, ChainConfig, Config, ConfigError, EndpointAuth, EndpointConfig,
    EndpointView, HealthConfig, HedgeConfig, RateLimitConfig, RotationStrategy, ServerConfig,
};
use vstd::prelude::*;
use vstd::string::*;

verus! {

/// The proxy, ready to serve its configuration.
pub struct Turbine {
    config: Config,
}

/// Builds a proxy configuration chain by chain.
pub struct TurbineBuilder {
    chains: Vec<ChainConfig>,
    dashboard_secret: Option<String>,
}

/// Builds one chain of a proxy configuration.
pub struct ChainBuilder {
    name: String,
    route: String,
    endpoints: Vec<EndpointConfig>,
    max_consecutive_failures: u32,
    cooldown_seconds: u64,
    health_method: Option<String>,
    health_check_interval_seconds: u64,
    max_block_lag: u64,
    rotation: RotationStrategy,
    cache_enabled: bool,
    cache_preset: Option<String>,
    cache_max_capacity: Option<u64>,
    cache_methods: Vec<CacheMethodConfig>,
    chain_id: Option<u64>,
    max_retries: u32,
    retry_delay_ms: u64,
    rate_limit_max_requests: Option<u32>,
    rate_limit_window_seconds: Option<u64>,
    hedge_delay_ms: Option<u64>,
    hedge_max_count: Option<u32>,
    parent: TurbineBuilder,
}

/// A proxy builder as plain values.
pub struct BuilderView {
    pub chains: Seq<ChainConfig>,
    pub dashboard_secret: Option<Seq<char>>,
}

/// A chain builder as plain values.
pub struct ChainBuilderView {
    pub name: Seq<char>,
    pub route: Seq<char>,
    pub endpoints: Seq<EndpointView>,
    pub max_consecutive_failures: u32,
    pub cooldown_seconds: u64,
    pub health_method: Option<Seq<char>>,
    pub health_check_interval_seconds: u64,
    pub max_block_lag: u64,
    pub rotation: RotationStrategy,
    pub cache_enabled: bool,
    pub cache_preset: Option<Seq<char>>,
    pub cache_max_capacity: Option<u64>,
    pub cache_methods: Seq<(Seq<char>, u64)>,
    pub chain_id: Option<u64>,
    pub max_retries: u32,
    pub retry_delay_ms: u64,
    pub rate_limit_max_requests: Option<u32>,
    pub rate_limit_window_seconds: Option<u64>,
    pub hedge_delay_ms: Option<u64>,
    pub hedge_max_count: Option<u32>,
    pub parent: BuilderView,
}

/// The characters of an optional string.
pub open spec fn opt_view(o: Option<String>) -> Option<Seq<char>> {
    match o {
        Some(s) => Some(s@),
        None => None,
    }
}

/// Per-method cache lifetimes as plain values.
pub open spec fn methods_view(m: Seq<CacheMethodConfig>) -> Seq<(Seq<char>, u64)> {
    m.map_values(|c: CacheMethodConfig| (c.name@, c.ttl_seconds))
}

/// `c` is the chain that builder `b` describes.
pub open spec fn chain_built_from(c: ChainConfig, b: ChainBuilderView) -> bool {
    &&& c.name@ == b.name
    &&& c.route@ == b.route
    &&& c.endpoints.deep_view() == b.endpoints
    &&& c.health.max_consecutive_failures == b.max_consecutive_failures
    &&& c.health.cooldown_seconds == b.cooldown_seconds
    &&& opt_view(c.health.health_method) == b.health_method
    &&& c.health.health_check_interval_seconds == b.health_check_interval_seconds
    &&& c.health.max_block_lag == b.max_block_lag
    &&& c.health.max_retries == b.max_retries
    &&& c.health.retry_delay_ms == b.retry_delay_ms
    &&& c.rotation == b.rotation
    &&& (if b.cache_enabled {
        c.cache matches Some(cc) && cc.enabled && opt_view(cc.preset) == b.cache_preset
            && cc.max_capacity == b.cache_max_capacity && methods_view(cc.methods@)
            == b.cache_methods
    } else {
        c.cache is None
    })
    &&& c.chain_id == b.chain_id
    &&& c.rate_limit == match (b.rate_limit_max_requests, b.rate_limit_window_seconds) {
        (Some(max_requests), Some(window_seconds)) => Some(
            RateLimitConfig { max_requests, window_seconds },
        ),
        _ => None,
    }
    &&& c.hedge == match b.hedge_delay_ms {
        Some(delay_ms) => Some(
            HedgeConfig {
                delay_ms,
                max_count: match b.hedge_max_count {
                    Some(n) => n,
                    None => 1,
                },
            },
        ),
        None => None,
    }
}

/// The builder with one more endpoint whose fields satisfy `added`.
pub open spec fn with_endpoint(
    before: ChainBuilderView,
    after: ChainBuilderView,
    url: Seq<char>,
    weight: u32,
) -> bool {
    &&& after == ChainBuilderView { endpoints: after.endpoints, ..before }
    &&& after.endpoints.len() == before.endpoints.len() + 1
    &&& after.endpoints.drop_last() == before.endpoints
    &&& after.endpoints.last().url == url
    &&& after.endpoints.last().weight == weight
    &&& after.endpoints.last().methods is None
    &&& after.endpoints.last().ws_url is None
}

impl View for Turbine {
    type V = Config;

    closed spec fn view(&self) -> Config {
        self.config
    }
}

impl View for TurbineBuilder {
    type V = BuilderView;

    closed spec fn view(&self) -> BuilderView {
        BuilderView { chains: self.chains@, dashboard_secret: opt_view(self.dashboard_secret) }
    }
}

impl View for ChainBuilder {
    type V = ChainBuilderView;

    closed spec fn view(&self) -> ChainBuilderView {
        ChainBuilderView {
            name: self.name@,
            route: self.route@,
            endpoints: self.endpoints.deep_view(),
            max_consecutive_failures: self.max_consecutive_failures,
            cooldown_seconds: self.cooldown_seconds,
            health_method: opt_view(self.health_method),
            health_check_interval_seconds: self.health_check_interval_seconds,
            max_block_lag: self.max_block_lag,
            rotation: self.rotation,
            cache_enabled: self.cache_enabled,
            cache_preset: opt_view(self.cache_preset),
            cache_max_capacity: self.cache_max_capacity,
            cache_methods: methods_view(self.cache_methods@),
            chain_id: self.chain_id,
            max_retries: self.max_retries,
            retry_delay_ms: self.retry_delay_ms,
            rate_limit_max_requests: self.rate_limit_max_requests,
            rate_limit_window_seconds: self.rate_limit_window_seconds,
            hedge_delay_ms: self.hedge_delay_ms,
            hedge_max_count: self.hedge_max_count,
            parent: self.parent@,
        }
    }
}

impl Turbine {
    /// Create a Turbine instance from an existing Config.
    pub fn from_raw_config(config: Config) -> (r: Self)
        ensures
            r@ == config,
    {
        Turbine { config }
    }

    /// Create a Turbine instance from a configuration read from a file: the
    /// configuration must pass validation, else the first problem is reported.
    pub fn from_config(config: Config) -> (r: Result<Self, ConfigError>)
        ensures
            match crate::config::config_fault(config) {
                None => r matches Ok(t) && t@ == config,
                Some(f) => r matches Err(e) && e.reports(f, config.chains@, config.server.api_keys@),
            },
    {
        match config.validate() {
            Ok(()) => Ok(Turbine { config }),
            Err(e) => Err(e),
        }
    }

    /// Start building a Turbine instance programmatically.
    pub fn builder() -> (r: TurbineBuilder)
        ensures
            r@.chains.len() == 0,
            r@.dashboard_secret is None,
    {
        TurbineBuilder { chains: Vec::new(), dashboard_secret: None }
    }

    /// The configured host.
    pub fn host(&self) -> (r: &str)
        ensures
            r@ == self@.server.host@,
    {
        self.config.server.host.as_str()
    }

    /// The configured port.
    pub fn port(&self) -> (r: u16)
        ensures
            r == self@.server.port,
    {
        self.config.server.port
    }

    /// The configuration served.
    pub fn config(&self) -> (r: &Config)
        ensures
            *r == self@,
    {
        &self.config
    }

    /// The configuration served, by value.
    pub fn into_config(self) -> (r: Config)
        ensures
            r == self@,
    {
        self.config
    }
}

impl TurbineBuilder {
    /// Add a chain to the proxy: route `/{name}`, at most 3 consecutive
    /// failures, 30 s cooldown, health checks every 30 s, 10 blocks of lag,
    /// round-robin rotation, no cache, one retry.
    pub fn add_chain(self, name: &str) -> (r: ChainBuilder)
        ensures
            r@ == (ChainBuilderView {
                name: name@,
                route: seq!['/'] + name@,
                endpoints: Seq::empty(),
                max_consecutive_failures: 3,
                cooldown_seconds: 30,
                health_method: None,
                health_check_interval_seconds: 30,
                max_block_lag: 10,
                rotation: RotationStrategy::RoundRobin,
                cache_enabled: false,
                cache_preset: None,
                cache_max_capacity: None,
                cache_methods: Seq::empty(),
                chain_id: None,
                max_retries: 1,
                retry_delay_ms: 0,
                rate_limit_max_requests: None,
                rate_limit_window_seconds: None,
                hedge_delay_ms: None,
                hedge_max_count: None,
                parent: self@,
            }),
    {
        proof {
            reveal_strlit("/");
            assert("/"@ =~= seq!['/']);
        }
        let endpoints: Vec<EndpointConfig> = Vec::new();
        let cache_methods: Vec<CacheMethodConfig> = Vec::new();
        let r = ChainBuilder {
            name: String::from_str(name),
            route: String::from_str("/").concat(name),
            endpoints,
            max_consecutive_failures: 3,
            cooldown_seconds: 30,
            health_method: None,
            health_check_interval_seconds: 30,
            max_block_lag: 10,
            rotation: RotationStrategy::RoundRobin,
            cache_enabled: false,
            cache_preset: None,
            cache_max_capacity: None,
            cache_methods,
            chain_id: None,
            max_retries: 1,
            retry_delay_ms: 0,
            rate_limit_max_requests: None,
            rate_limit_window_seconds: None,
            hedge_delay_ms: None,
            hedge_max_count: None,
            parent: self,
        };
        assert(r@.endpoints =~= Seq::empty());
        assert(r@.cache_methods =~= Seq::empty());
        r
    }

    /// Set a secret path for the dashboard.
    pub fn dashboard_secret(self, secret: &str) -> (r: Self)
        ensures
            r@ == (BuilderView { dashboard_secret: Some(secret@), ..self@ }),
    {
        TurbineBuilder { chains: self.chains, dashboard_secret: Some(String::from_str(secret)) }
    }

    /// Build the proxy on 127.0.0.1:8080 with the chains added so far; at
    /// least one chain is needed.
    pub fn build(self) -> (r: Result<Turbine, ConfigError>)
        ensures
            self@.chains.len() == 0 <==> r is Err,
            r matches Err(e) ==> e is NoChains,
            r matches Ok(t) ==> t@.chains@ == self@.chains && t@.server.host@ == "127.0.0.1"@
                && t@.server.port == 8080 && opt_view(t@.server.dashboard_secret)
                == self@.dashboard_secret && t@.server.api_keys@.len() == 0,
    {
        if self.chains.len() == 0 {
            return Err(ConfigError::NoChains);
        }
        let config = Config {
            server: ServerConfig {
                host: String::from_str("127.0.0.1"),
                port: 8080,
                dashboard_secret: self.dashboard_secret,
                api_keys: Vec::new(),
            },
            chains: self.chains,
        };
        Ok(Turbine { config })
    }
}

impl ChainBuilder {
    /// Add an RPC endpoint with default weight (1) and no auth.
    pub fn endpoint(self, url: &str) -> (r: Self)
        ensures
            with_endpoint(self@, r@, url@, 1),
            r@.endpoints.last().auth is None,
    {
        let mut b = self;
        b.endpoints.push(
            EndpointConfig {
                url: String::from_str(url),
                weight: 1,
                auth: None,
                methods: None,
                ws_url: None,
            },
        );
        assert(b@.endpoints.drop_last() =~= self@.endpoints);
        b
    }

    /// Add an RPC endpoint with a specific weight and no auth.
    pub fn weighted_endpoint(self, url: &str, weight: u32) -> (r: Self)
        ensures
            with_endpoint(self@, r@, url@, weight),
            r@.endpoints.last().auth is None,
    {
        let mut b = self;
        b.endpoints.push(
            EndpointConfig { url: String::from_str(url), weight, auth: None, methods: None, ws_url: None },
        );
        assert(b@.endpoints.drop_last() =~= self@.endpoints);
        b
    }

    /// Add an RPC endpoint with HTTP Basic Auth (e.g., Bitcoin Core nodes).
    pub fn endpoint_with_basic_auth(self, url: &str, username: &str, password: &str) -> (r: Self)
        ensures
            with_endpoint(self@, r@, url@, 1),
            r@.endpoints.last().auth matches Some(EndpointAuth::Basic { username: u, password: p })
                && u@ == username@ && p@ == password@,
    {
        let mut b = self;
        b.endpoints.push(
            EndpointConfig {
                url: String::from_str(url),
                weight: 1,
                auth: Some(
                    EndpointAuth::Basic {
                        username: String::from_str(username),
                        password: String::from_str(password),
                    },
                ),
                methods: None,
                ws_url: None,
            },
        );
        assert(b@.endpoints.drop_last() =~= self@.endpoints);
        b
    }

    /// Add an RPC endpoint with a Bearer token.
    pub fn endpoint_with_bearer(self, url: &str, token: &str) -> (r: Self)
        ensures
            with_endpoint(self@, r@, url@, 1),
            r@.endpoints.last().auth matches Some(EndpointAuth::Bearer(t)) && t@ == token@,
    {
        let mut b = self;
        b.endpoints.push(
            EndpointConfig {
                url: String::from_str(url),
                weight: 1,
                auth: Some(EndpointAuth::Bearer(String::from_str(token))),
                methods: None,
                ws_url: None,
            },
        );
        assert(b@.endpoints.drop_last() =~= self@.endpoints);
        b
    }

    /// Add an RPC endpoint with a custom auth header (e.g., `x-api-key`).
    pub fn endpoint_with_header(self, url: &str, header_name: &str, header_value: &str) -> (r: Self)
        ensures
            with_endpoint(self@, r@, url@, 1),
            r@.endpoints.last().auth matches Some(EndpointAuth::Header { name: n, value: v })
                && n@ == header_name@ && v@ == header_value@,
    {
        let mut b = self;
        b.endpoints.push(
            EndpointConfig {
                url: String::from_str(url),
                weight: 1,
                auth: Some(
                    EndpointAuth::Header {
                        name: String::from_str(header_name),
                        value: String::from_str(header_value),
                    },
                ),
                methods: None,
                ws_url: None,
            },
        );
        assert(b@.endpoints.drop_last() =~= self@.endpoints);
        b
    }

    /// Set a custom route (default: `/{name}`).
    pub fn route(self, route: &str) -> (r: Self)
        ensures
            r@ == (ChainBuilderView { route: route@, ..self@ }),
    {
        let mut b = self;
        b.route = String::from_str(route);
        b
    }

    /// Set max consecutive failures before marking unhealthy (default: 3).
    pub fn max_failures(self, n: u32) -> (r: Self)
        ensures
            r@ == (ChainBuilderView { max_consecutive_failures: n, ..self@ }),
    {
        let mut b = self;
        b.max_consecutive_failures = n;
        b
    }

    /// Set cooldown in seconds before retrying an unhealthy endpoint (default: 30).
    pub fn cooldown_secs(self, secs: u64) -> (r: Self)
        ensures
            r@ == (ChainBuilderView { cooldown_seconds: secs, ..self@ }),
    {
        let mut b = self;
        b.cooldown_seconds = secs;
        b
    }

    /// Set the JSON-RPC method used for health checks.
    pub fn health_method(self, method: &str) -> (r: Self)
        ensures
            r@ == (ChainBuilderView { health_method: Some(method@), ..self@ }),
    {
        let mut b = self;
        b.health_method = Some(String::from_str(method));
        b
    }

    /// Set the health check interval in seconds (default: 30).
    pub fn health_check_interval(self, secs: u64) -> (r: Self)
        ensures
            r@ == (ChainBuilderView { health_check_interval_seconds: secs, ..self@ }),
    {
        let mut b = self;
        b.health_check_interval_seconds = secs;
        b
    }

    /// Set the max block lag before marking an endpoint as stale (default: 10).
    pub fn max_block_lag(self, lag: u64) -> (r: Self)
        ensures
            r@ == (ChainBuilderView { max_block_lag: lag, ..self@ }),
    {
        let mut b = self;
        b.max_block_lag = lag;
        b
    }

    /// Set rotation strategy to weighted.
    pub fn weighted(self) -> (r: Self)
        ensures
            r@ == (ChainBuilderView { rotation: RotationStrategy::Weighted, ..self@ }),
    {
        let mut b = self;
        b.rotation = RotationStrategy::Weighted;
        b
    }

    /// Enable or disable caching for this chain.
    pub fn cache(self, enabled: bool) -> (r: Self)
        ensures
            r@ == (ChainBuilderView { cache_enabled: enabled, ..self@ }),
    {
        let mut b = self;
        b.cache_enabled = enabled;
        b
    }

    /// Set the cache preset ("evm", "solana", "none").
    pub fn cache_preset(self, preset: &str) -> (r: Self)
        ensures
            r@ == (ChainBuilderView { cache_preset: Some(preset@), ..self@ }),
    {
        let mut b = self;
        b.cache_preset = Some(String::from_str(preset));
        b
    }

    /// Set the max number of cache entries.
    pub fn cache_max_capacity(self, capacity: u64) -> (r: Self)
        ensures
            r@ == (ChainBuilderView { cache_max_capacity: Some(capacity), ..self@ }),
    {
        let mut b = self;
        b.cache_max_capacity = Some(capacity);
        b
    }

    /// Add or override a cached method with a specific TTL in seconds.
    pub fn cache_method(self, method: &str, ttl_seconds: u64) -> (r: Self)
        ensures
            r@ == (ChainBuilderView {
                cache_methods: self@.cache_methods.push((method@, ttl_seconds)),
                ..self@
            }),
    {
        let mut b = self;
        b.cache_methods.push(CacheMethodConfig { name: String::from_str(method), ttl_seconds });
        assert(b@.cache_methods =~= self@.cache_methods.push((method@, ttl_seconds)));
        b
    }

    /// Set the numeric chain id under which the chain is also routed.
    pub fn chain_id(self, id: u64) -> (r: Self)
        ensures
            r@ == (ChainBuilderView { chain_id: Some(id), ..self@ }),
    {
        let mut b = self;
        b.chain_id = Some(id);
        b
    }

    /// Set how many times a failed forward is retried (default: 1).
    pub fn max_retries(self, n: u32) -> (r: Self)
        ensures
            r@ == (ChainBuilderView { max_retries: n, ..self@ }),
    {
        let mut b = self;
        b.max_retries = n;
        b
    }

    /// Set the base delay between retries in milliseconds (default: 0, meaning 100 ms).
    pub fn retry_delay_ms(self, ms: u64) -> (r: Self)
        ensures
            r@ == (ChainBuilderView { retry_delay_ms: ms, ..self@ }),
    {
        let mut b = self;
        b.retry_delay_ms = ms;
        b
    }

    /// Limit the chain to `max_requests` per `window_seconds`.
    pub fn rate_limit(self, max_requests: u32, window_seconds: u64) -> (r: Self)
        ensures
            r@ == (ChainBuilderView {
                rate_limit_max_requests: Some(max_requests),
                rate_limit_window_seconds: Some(window_seconds),
                ..self@
            }),
    {
        let mut b = self;
        b.rate_limit_max_requests = Some(max_requests);
        b.rate_limit_window_seconds = Some(window_seconds);
        b
    }

    /// Enable hedged requests. After `delay_ms`, fire up to `max_count` additional
    /// parallel requests to different endpoints. First success wins.
    pub fn hedge(self, delay_ms: u64, max_count: u32) -> (r: Self)
        ensures
            r@ == (ChainBuilderView {
                hedge_delay_ms: Some(delay_ms),
                hedge_max_count: Some(max_count),
                ..self@
            }),
    {
        let mut b = self;
        b.hedge_delay_ms = Some(delay_ms);
        b.hedge_max_count = Some(max_count);
        b
    }

    /// Finish configuring this chain and return to the builder: the cache is
    /// kept only when enabled, the rate limit only when both its values were
    /// given, and a hedge without a count fires one extra request.
    pub fn done(self) -> (r: TurbineBuilder)
        ensures
            r@.dashboard_secret == self@.parent.dashboard_secret,
            r@.chains.len() == self@.parent.chains.len() + 1,
            r@.chains.drop_last() == self@.parent.chains,
            chain_built_from(r@.chains.last(), self@),
    {
        let ghost b = self@;
        let cache = if self.cache_enabled {
            Some(
                CacheConfig {
                    enabled: true,
                    preset: self.cache_preset,
                    max_capacity: self.cache_max_capacity,
                    methods: self.cache_methods,
                },
            )
        } else {
            None
        };
        let rate_limit = match (self.rate_limit_max_requests, self.rate_limit_window_seconds) {
            (Some(max_requests), Some(window_seconds)) => Some(
                RateLimitConfig { max_requests, window_seconds },
            ),
            _ => None,
        };
        let hedge = match self.hedge_delay_ms {
            Some(delay_ms) => Some(
                HedgeConfig {
                    delay_ms,
                    max_count: match self.hedge_max_count {
                        Some(n) => n,
                        None => 1,
                    },
                },
            ),
            None => None,
        };
        let chain = ChainConfig {
            name: self.name,
            route: self.route,
            endpoints: self.endpoints,
            health: HealthConfig {
                max_consecutive_failures: self.max_consecutive_failures,
                cooldown_seconds: self.cooldown_seconds,
                health_method: self.health_method,
                health_check_interval_seconds: self.health_check_interval_seconds,
                max_block_lag: self.max_block_lag,
                max_retries: self.max_retries,
                retry_delay_ms: self.retry_delay_ms,
            },
            rotation: self.rotation,
            cache,
            chain_id: self.chain_id,
            rate_limit,
            hedge,
        };
        assert(chain_built_from(chain, b));
        let mut parent = self.parent;
        parent.chains.push(chain);
        assert(parent@.chains.drop_last() =~= b.parent.chains);
        parent
    }
}

} // verus!
