//! Proxy configuration: the data model, its defaults and its validation.
use crate::text::{
    contains, decimal, decimal_string, has_prefix, is_blank, lowercase, seq_contains, starts_with,
    str_eq, str_is_blank, suffix_string, to_lowercase,
};
use vstd::prelude::*;
use vstd::string::*;

verus! {

/// Whole proxy configuration.
#[derive(Debug)]
pub struct Config {
    pub server: ServerConfig,
    pub chains: Vec<ChainConfig>,
}

/// Listening address and access control.
#[derive(Debug)]
pub struct ServerConfig {
    pub host: String,
    pub port: u16,
    pub dashboard_secret: Option<String>,
    pub api_keys: Vec<ApiKeyConfig>,
}

/// A client API key, optionally rate limited.
#[derive(Debug)]
pub struct ApiKeyConfig {
    pub name: String,
    pub key: String,
    pub rate_limit: Option<RateLimitConfig>,
}

/// One chain: its route, its upstream endpoints and its policies.
#[derive(Debug)]
pub struct ChainConfig {
    pub name: String,
    pub route: String,
    pub endpoints: Vec<EndpointConfig>,
    pub health: HealthConfig,
    pub rotation: RotationStrategy,
    pub cache: Option<CacheConfig>,
    pub chain_id: Option<u64>,
    pub rate_limit: Option<RateLimitConfig>,
    pub hedge: Option<HedgeConfig>,
}

/// One upstream RPC endpoint.
#[derive(Debug)]
pub struct EndpointConfig {
    pub url: String,
    pub weight: u32,
    pub auth: Option<EndpointAuth>,
    pub methods: Option<Vec<String>>,
    pub ws_url: Option<String>,
}

/// Authentication credentials for an upstream RPC endpoint.
#[derive(Debug)]
pub enum EndpointAuth {
    /// HTTP Basic Auth (username + password). Used by Bitcoin Core and self-hosted nodes.
    Basic { username: String, password: String },
    /// Bearer token sent via `Authorization: Bearer <token>` header.
    Bearer(String),
    /// Custom header (e.g., `x-api-key`).
    Header { name: String, value: String },
}

/// Health tracking and retry policy of a chain.
#[derive(Debug)]
pub struct HealthConfig {
    pub max_consecutive_failures: u32,
    pub cooldown_seconds: u64,
    pub health_method: Option<String>,
    pub health_check_interval_seconds: u64,
    pub max_block_lag: u64,
    pub max_retries: u32,
    pub retry_delay_ms: u64,
}

/// How requests are spread over the endpoints of a chain.
#[derive(Debug, Clone, Copy, PartialEq, Eq, Structural)]
pub enum RotationStrategy {
    RoundRobin,
    Weighted,
    Latency,
}

/// Response caching of a chain.
#[derive(Debug)]
pub struct CacheConfig {
    pub enabled: bool,
    pub preset: Option<String>,
    pub max_capacity: Option<u64>,
    pub methods: Vec<CacheMethodConfig>,
}

/// A per-method cache lifetime.
#[derive(Debug)]
pub struct CacheMethodConfig {
    pub name: String,
    pub ttl_seconds: u64,
}

/// At most `max_requests` requests per `window_seconds`.
#[derive(Debug, Clone, Copy)]
pub struct RateLimitConfig {
    pub max_requests: u32,
    pub window_seconds: u64,
}

/// Hedged requests: after `delay_ms`, up to `max_count` extra parallel requests.
#[derive(Debug, Clone, Copy)]
pub struct HedgeConfig {
    pub delay_ms: u64,
    pub max_count: u32,
}

impl RateLimitConfig {
    /// The period in which the limit lets one more request through: the
    /// window divided by the number of requests, in whole nanoseconds, as
    /// seconds and nanoseconds.
    pub fn period(&self) -> (r: (u64, u32))
        requires
            self.max_requests > 0,
        ensures
            r.1 < 1_000_000_000,
            r.0 * 1_000_000_000 + r.1 == (self.window_seconds * 1_000_000_000) / (
            self.max_requests as int),
    {
        let w = self.window_seconds as u128;
        let m = self.max_requests as u128;
        assert(w * 1_000_000_000 <= u64::MAX * 1_000_000_000) by (nonlinear_arith)
            requires
                w <= u64::MAX,
        ;
        let total: u128 = w * 1_000_000_000 / m;
        assert(total <= w * 1_000_000_000) by (nonlinear_arith)
            requires
                m >= 1,
                total as int == (w * 1_000_000_000) / (m as int),
                w >= 0,
        ;
        let secs: u128 = total / 1_000_000_000;
        assert(secs <= w) by (nonlinear_arith)
            requires
                secs as int == (total as int) / 1_000_000_000,
                total <= w * 1_000_000_000,
        ;
        let nanos: u128 = total % 1_000_000_000;
        (secs as u64, nanos as u32)
    }
}

impl Default for RotationStrategy {
    fn default() -> (r: Self)
        ensures
            r == RotationStrategy::RoundRobin,
    {
        RotationStrategy::RoundRobin
    }
}

impl Clone for EndpointAuth {
    fn clone(&self) -> (r: Self)
        ensures
            r == *self,
    {
        match self {
            EndpointAuth::Basic { username, password } => EndpointAuth::Basic {
                username: username.clone(),
                password: password.clone(),
            },
            EndpointAuth::Bearer(t) => EndpointAuth::Bearer(t.clone()),
            EndpointAuth::Header { name, value } => EndpointAuth::Header {
                name: name.clone(),
                value: value.clone(),
            },
        }
    }
}

/// An exact copy of a list of strings.
pub fn clone_strings(v: &Vec<String>) -> (r: Vec<String>)
    ensures
        r@ == v@,
{
    let mut r: Vec<String> = Vec::new();
    let mut i: usize = 0;
    while i < v.len()
        invariant
            i <= v@.len(),
            r@ == v@.subrange(0, i as int),
        decreases v@.len() - i,
    {
        r.push(v[i].clone());
        i = i + 1;
        assert(r@ =~= v@.subrange(0, i as int));
    }
    assert(r@ =~= v@);
    r
}

/// An exact copy of an optional string.
pub fn clone_opt_string(s: &Option<String>) -> (r: Option<String>)
    ensures
        r == *s,
{
    match s {
        Some(x) => Some(x.clone()),
        None => None,
    }
}

/// An endpoint as plain values.
pub struct EndpointView {
    pub url: Seq<char>,
    pub weight: u32,
    pub auth: Option<EndpointAuth>,
    pub methods: Option<Seq<String>>,
    pub ws_url: Option<String>,
}

impl View for EndpointConfig {
    type V = EndpointView;

    open spec fn view(&self) -> EndpointView {
        EndpointView {
            url: self.url@,
            weight: self.weight,
            auth: self.auth,
            methods: match self.methods {
                Some(m) => Some(m@),
                None => None,
            },
            ws_url: self.ws_url,
        }
    }
}

impl DeepView for EndpointConfig {
    type V = EndpointView;

    open spec fn deep_view(&self) -> EndpointView {
        self@
    }
}

impl Clone for EndpointConfig {
    fn clone(&self) -> (r: Self)
        ensures
            r@ == self@,
    {
        let auth = match &self.auth {
            Some(a) => Some(a.clone()),
            None => None,
        };
        let methods = match &self.methods {
            Some(m) => Some(clone_strings(m)),
            None => None,
        };
        EndpointConfig {
            url: self.url.clone(),
            weight: self.weight,
            auth,
            methods,
            ws_url: clone_opt_string(&self.ws_url),
        }
    }
}

impl Clone for HealthConfig {
    fn clone(&self) -> (r: Self)
        ensures
            r == *self,
    {
        HealthConfig {
            max_consecutive_failures: self.max_consecutive_failures,
            cooldown_seconds: self.cooldown_seconds,
            health_method: clone_opt_string(&self.health_method),
            health_check_interval_seconds: self.health_check_interval_seconds,
            max_block_lag: self.max_block_lag,
            max_retries: self.max_retries,
            retry_delay_ms: self.retry_delay_ms,
        }
    }
}

impl Clone for CacheMethodConfig {
    fn clone(&self) -> (r: Self)
        ensures
            r == *self,
    {
        CacheMethodConfig { name: self.name.clone(), ttl_seconds: self.ttl_seconds }
    }
}

/// An exact copy of a list of endpoints.
pub fn clone_endpoints(v: &Vec<EndpointConfig>) -> (r: Vec<EndpointConfig>)
    ensures
        r.deep_view() == v.deep_view(),
{
    let mut r: Vec<EndpointConfig> = Vec::new();
    let mut i: usize = 0;
    while i < v.len()
        invariant
            i <= v@.len(),
            r@.len() == i,
            forall|k: int| 0 <= k < i ==> (#[trigger] r@[k])@ == v@[k]@,
        decreases v@.len() - i,
    {
        r.push(v[i].clone());
        i = i + 1;
    }
    assert(r.deep_view() =~= v.deep_view());
    r
}

/// Weight of an endpoint given as a bare URL.
pub fn default_weight() -> (r: u32)
    ensures
        r == 1,
{
    1
}

/// Seconds between background health checks when none is configured.
pub fn default_health_check_interval() -> (r: u64)
    ensures
        r == 30,
{
    30
}

/// Blocks an endpoint may lag when no limit is configured.
pub fn default_max_block_lag() -> (r: u64)
    ensures
        r == 10,
{
    10
}

/// Retries after a failed forward when none are configured.
pub fn default_max_retries() -> (r: u32)
    ensures
        r == 1,
{
    1
}

/// Extra hedged requests when a hedge gives no count.
pub fn default_hedge_max_count() -> (r: u32)
    ensures
        r == 1,
{
    1
}

pub open spec fn https_scheme() -> Seq<char> {
    seq!['h', 't', 't', 'p', 's', ':', '/', '/']
}

pub open spec fn http_scheme() -> Seq<char> {
    seq!['h', 't', 't', 'p', ':', '/', '/']
}

pub open spec fn wss_scheme() -> Seq<char> {
    seq!['w', 's', 's', ':', '/', '/']
}

pub open spec fn ws_scheme() -> Seq<char> {
    seq!['w', 's', ':', '/', '/']
}

/// The WebSocket URL derived from an HTTP(S) URL: the scheme is swapped.
pub open spec fn derived_ws_url(url: Seq<char>) -> Option<Seq<char>> {
    if has_prefix(url, https_scheme()) {
        Some(wss_scheme() + url.subrange(https_scheme().len() as int, url.len() as int))
    } else if has_prefix(url, http_scheme()) {
        Some(ws_scheme() + url.subrange(http_scheme().len() as int, url.len() as int))
    } else {
        None
    }
}

impl EndpointConfig {
    /// The WebSocket URL of this endpoint: the configured one, else one
    /// derived from an `http://` or `https://` URL.
    pub fn effective_ws_url(&self) -> (r: Option<String>)
        ensures
            match self.ws_url {
                Some(ws) => r == Some(ws),
                None => match derived_ws_url(self.url@) {
                    Some(u) => r matches Some(s) && s@ == u,
                    None => r is None,
                },
            },
    {
        if let Some(ws) = &self.ws_url {
            return Some(ws.clone());
        }
        let https = "https://";
        let http = "http://";
        proof {
            reveal_strlit("https://");
            reveal_strlit("http://");
            reveal_strlit("wss://");
            reveal_strlit("ws://");
            assert(https@ =~= https_scheme());
            assert(http@ =~= http_scheme());
            assert("wss://"@ =~= wss_scheme());
            assert("ws://"@ =~= ws_scheme());
        }
        if starts_with(self.url.as_str(), https) {
            let rest = suffix_string(self.url.as_str(), 8);
            Some(String::from_str("wss://").concat(rest.as_str()))
        } else if starts_with(self.url.as_str(), http) {
            let rest = suffix_string(self.url.as_str(), 7);
            Some(String::from_str("ws://").concat(rest.as_str()))
        } else {
            None
        }
    }
}

pub open spec fn solana_word() -> Seq<char> {
    seq!['s', 'o', 'l', 'a', 'n', 'a']
}

pub open spec fn starknet_word() -> Seq<char> {
    seq!['s', 't', 'a', 'r', 'k', 'n', 'e', 't']
}

pub open spec fn bitcoin_word() -> Seq<char> {
    seq!['b', 'i', 't', 'c', 'o', 'i', 'n']
}

pub open spec fn btc_word() -> Seq<char> {
    seq!['b', 't', 'c']
}

/// The JSON-RPC method that reports the chain head, chosen by chain family
/// from the lower-cased chain name.
pub open spec fn health_method_for(lower: Seq<char>) -> Seq<char> {
    if seq_contains(lower, solana_word()) {
        "getSlot"@
    } else if seq_contains(lower, starknet_word()) {
        "starknet_blockNumber"@
    } else if seq_contains(lower, bitcoin_word()) || seq_contains(lower, btc_word()) {
        "getblockcount"@
    } else {
        "eth_blockNumber"@
    }
}

/// The health check method of a chain family, from the lower-cased
/// chain name.
pub fn health_method_for_lowercase(name: &str) -> (r: &'static str)
    ensures
        r@ == health_method_for(name@),
{
    proof {
        reveal_strlit("solana");
        reveal_strlit("starknet");
        reveal_strlit("bitcoin");
        reveal_strlit("btc");
        assert("solana"@ =~= solana_word());
        assert("starknet"@ =~= starknet_word());
        assert("bitcoin"@ =~= bitcoin_word());
        assert("btc"@ =~= btc_word());
    }
    if contains(name, "solana") {
        "getSlot"
    } else if contains(name, "starknet") {
        "starknet_blockNumber"
    } else if contains(name, "bitcoin") || contains(name, "btc") {
        "getblockcount"
    } else if contains(name, "aptos") || contains(name, "sui") {
        // Aptos/Sui use different APIs; their JSON-RPC gateways answer the EVM method.
        "eth_blockNumber"
    } else {
        "eth_blockNumber"
    }
}

/// Default health check methods per chain family.
pub fn default_health_method(chain_name: &str) -> (r: &'static str)
    ensures
        r@ == health_method_for(lowercase(chain_name@)),
{
    let lowered = to_lowercase(chain_name);
    health_method_for_lowercase(lowered.as_str())
}

/// The health method of a chain: the configured one, else the family default.
pub fn resolve_health_method(chain_name: &str, configured: &Option<String>) -> (r: String)
    ensures
        match configured {
            Some(m) => r@ == m@,
            None => r@ == health_method_for(lowercase(chain_name@)),
        },
{
    match configured {
        Some(m) => m.clone(),
        None => String::from_str(default_health_method(chain_name)),
    }
}

// ---------------------------------------------------------------------------
// Validation
// ---------------------------------------------------------------------------

/// Why a configuration is refused.
#[derive(Debug)]
pub enum ConfigError {
    NoChains,
    DuplicateChainId(u64),
    NoEndpoints(String),
    RouteWithoutSlash(String),
    AllWeightsZero(String),
    HedgeDelayZero(String),
    HedgeMaxCountZero(String),
    HedgeTooFewEndpoints(String),
    RateLimitMaxRequestsZero(String),
    RateLimitWindowZero(String),
    EmptyApiKey(String),
    DuplicateApiKey(String),
    ApiKeyRateLimitMaxRequestsZero(String),
    ApiKeyRateLimitWindowZero(String),
}

/// The first problem found in one chain.
pub enum ChainFault {
    NoEndpoints,
    RouteWithoutSlash,
    AllWeightsZero,
    HedgeDelayZero,
    HedgeMaxCountZero,
    HedgeTooFewEndpoints,
    RateLimitMaxRequestsZero,
    RateLimitWindowZero,
}

/// The first problem found in one API key.
pub enum KeyFault {
    Blank,
    Duplicate,
    RateLimitMaxRequestsZero,
    RateLimitWindowZero,
}

/// The first problem found in a whole configuration.
pub enum ConfigFault {
    NoChains,
    DuplicateChainId(u64),
    Chain(int, ChainFault),
    ApiKey(int, KeyFault),
}

/// Every endpoint of `eps` has weight zero.
pub open spec fn all_weights_zero(eps: Seq<EndpointConfig>) -> bool {
    forall|i: int| 0 <= i < eps.len() ==> (#[trigger] eps[i]).weight == 0
}

/// The first problem of a chain, in the order the checks are made.
pub open spec fn chain_fault(c: ChainConfig) -> Option<ChainFault> {
    if c.endpoints@.len() == 0 {
        Some(ChainFault::NoEndpoints)
    } else if !has_prefix(c.route@, seq!['/']) {
        Some(ChainFault::RouteWithoutSlash)
    } else if c.rotation == RotationStrategy::Weighted && all_weights_zero(c.endpoints@) {
        Some(ChainFault::AllWeightsZero)
    } else if c.hedge matches Some(h) && h.delay_ms == 0 {
        Some(ChainFault::HedgeDelayZero)
    } else if c.hedge matches Some(h) && h.max_count == 0 {
        Some(ChainFault::HedgeMaxCountZero)
    } else if c.hedge is Some && c.endpoints@.len() < 2 {
        Some(ChainFault::HedgeTooFewEndpoints)
    } else if c.rate_limit matches Some(rl) && rl.max_requests == 0 {
        Some(ChainFault::RateLimitMaxRequestsZero)
    } else if c.rate_limit matches Some(rl) && rl.window_seconds == 0 {
        Some(ChainFault::RateLimitWindowZero)
    } else {
        None
    }
}

/// The chain id, if any, that a chain among the first `n` repeats from an
/// earlier chain; the first such chain counts.
pub open spec fn duplicate_chain_id(chains: Seq<ChainConfig>, n: int) -> Option<u64>
    decreases n,
{
    if n <= 0 {
        None
    } else {
        match duplicate_chain_id(chains, n - 1) {
            Some(id) => Some(id),
            None => match chains[n - 1].chain_id {
                Some(id) => if exists|i: int|
                    0 <= i < n - 1 && (#[trigger] chains[i]).chain_id == Some(id) {
                    Some(id)
                } else {
                    None
                },
                None => None,
            },
        }
    }
}

/// The first faulty chain among the first `n`, with its fault.
pub open spec fn first_chain_fault(chains: Seq<ChainConfig>, n: int) -> Option<(int, ChainFault)>
    decreases n,
{
    if n <= 0 {
        None
    } else {
        match first_chain_fault(chains, n - 1) {
            Some(p) => Some(p),
            None => match chain_fault(chains[n - 1]) {
                Some(f) => Some((n - 1, f)),
                None => None,
            },
        }
    }
}

/// The first problem of the `j`-th API key.
pub open spec fn key_fault(keys: Seq<ApiKeyConfig>, j: int) -> Option<KeyFault> {
    if is_blank(keys[j].key@) {
        Some(KeyFault::Blank)
    } else if exists|i: int| 0 <= i < j && (#[trigger] keys[i]).key@ == keys[j].key@ {
        Some(KeyFault::Duplicate)
    } else if keys[j].rate_limit matches Some(rl) && rl.max_requests == 0 {
        Some(KeyFault::RateLimitMaxRequestsZero)
    } else if keys[j].rate_limit matches Some(rl) && rl.window_seconds == 0 {
        Some(KeyFault::RateLimitWindowZero)
    } else {
        None
    }
}

/// The first faulty API key among the first `n`, with its fault.
pub open spec fn first_key_fault(keys: Seq<ApiKeyConfig>, n: int) -> Option<(int, KeyFault)>
    decreases n,
{
    if n <= 0 {
        None
    } else {
        match first_key_fault(keys, n - 1) {
            Some(p) => Some(p),
            None => match key_fault(keys, n - 1) {
                Some(f) => Some((n - 1, f)),
                None => None,
            },
        }
    }
}

/// The first problem of the chains of a configuration.
pub open spec fn chains_fault(chains: Seq<ChainConfig>) -> Option<ConfigFault> {
    if chains.len() == 0 {
        Some(ConfigFault::NoChains)
    } else {
        match duplicate_chain_id(chains, chains.len() as int) {
            Some(id) => Some(ConfigFault::DuplicateChainId(id)),
            None => match first_chain_fault(chains, chains.len() as int) {
                Some((i, f)) => Some(ConfigFault::Chain(i, f)),
                None => None,
            },
        }
    }
}

/// The first problem of the API keys of a configuration.
pub open spec fn keys_fault(keys: Seq<ApiKeyConfig>) -> Option<ConfigFault> {
    match first_key_fault(keys, keys.len() as int) {
        Some((i, f)) => Some(ConfigFault::ApiKey(i, f)),
        None => None,
    }
}

/// The first problem of a configuration: chains first, then API keys.
pub open spec fn config_fault(c: Config) -> Option<ConfigFault> {
    if chains_fault(c.chains@) is Some {
        chains_fault(c.chains@)
    } else {
        keys_fault(c.server.api_keys@)
    }
}

impl ConfigError {
    /// This error reports `fault` of a configuration with these chains and keys,
    /// naming the chain or key concerned.
    pub open spec fn reports(
        self,
        fault: ConfigFault,
        chains: Seq<ChainConfig>,
        keys: Seq<ApiKeyConfig>,
    ) -> bool {
        match fault {
            ConfigFault::NoChains => self is NoChains,
            ConfigFault::DuplicateChainId(id) => self == ConfigError::DuplicateChainId(id),
            ConfigFault::Chain(i, f) => {
                let name = chains[i].name@;
                match f {
                    ChainFault::NoEndpoints => self matches ConfigError::NoEndpoints(s) && s@ == name,
                    ChainFault::RouteWithoutSlash => self matches ConfigError::RouteWithoutSlash(s)
                        && s@ == name,
                    ChainFault::AllWeightsZero => self matches ConfigError::AllWeightsZero(s) && s@
                        == name,
                    ChainFault::HedgeDelayZero => self matches ConfigError::HedgeDelayZero(s) && s@
                        == name,
                    ChainFault::HedgeMaxCountZero => self matches ConfigError::HedgeMaxCountZero(s)
                        && s@ == name,
                    ChainFault::HedgeTooFewEndpoints => self matches ConfigError::HedgeTooFewEndpoints(
                        s,
                    ) && s@ == name,
                    ChainFault::RateLimitMaxRequestsZero =>
                        self matches ConfigError::RateLimitMaxRequestsZero(s) && s@ == name,
                    ChainFault::RateLimitWindowZero => self matches ConfigError::RateLimitWindowZero(
                        s,
                    ) && s@ == name,
                }
            },
            ConfigFault::ApiKey(i, f) => {
                let name = keys[i].name@;
                match f {
                    KeyFault::Blank => self matches ConfigError::EmptyApiKey(s) && s@ == name,
                    KeyFault::Duplicate => self matches ConfigError::DuplicateApiKey(s) && s@ == name,
                    KeyFault::RateLimitMaxRequestsZero =>
                        self matches ConfigError::ApiKeyRateLimitMaxRequestsZero(s) && s@ == name,
                    KeyFault::RateLimitWindowZero =>
                        self matches ConfigError::ApiKeyRateLimitWindowZero(s) && s@ == name,
                }
            },
        }
    }

    /// The human-readable text of this error.
    pub fn message(&self) -> (r: String)
        ensures
            match self {
                ConfigError::NoChains => r@ == "At least one chain must be configured"@,
                ConfigError::DuplicateChainId(id) => r@ == "Duplicate chain_id "@ + decimal(
                    *id as nat,
                ) + " in config"@,
                ConfigError::NoEndpoints(n) => r@ == "Chain '"@ + n@
                    + "' has no endpoints configured"@,
                ConfigError::RouteWithoutSlash(n) => r@ == "Chain '"@ + n@
                    + "' route must start with '/'"@,
                ConfigError::AllWeightsZero(n) => r@ == "Chain '"@ + n@
                    + "' uses weighted rotation but all weights are 0"@,
                ConfigError::HedgeDelayZero(n) => r@ == "Chain '"@ + n@
                    + "' hedge.delay_ms must be > 0"@,
                ConfigError::HedgeMaxCountZero(n) => r@ == "Chain '"@ + n@
                    + "' hedge.max_count must be > 0"@,
                ConfigError::HedgeTooFewEndpoints(n) => r@ == "Chain '"@ + n@
                    + "' uses hedging but has fewer than 2 endpoints"@,
                ConfigError::RateLimitMaxRequestsZero(n) => r@ == "Chain '"@ + n@
                    + "' rate_limit.max_requests must be > 0"@,
                ConfigError::RateLimitWindowZero(n) => r@ == "Chain '"@ + n@
                    + "' rate_limit.window_seconds must be > 0"@,
                ConfigError::EmptyApiKey(n) => r@ == "api_key '"@ + n@
                    + "' has an empty key string"@,
                ConfigError::DuplicateApiKey(n) => r@ == "Duplicate api key value for name '"@ + n@
                    + "'"@,
                ConfigError::ApiKeyRateLimitMaxRequestsZero(n) => r@ == "api_key '"@ + n@
                    + "' rate_limit.max_requests must be > 0"@,
                ConfigError::ApiKeyRateLimitWindowZero(n) => r@ == "api_key '"@ + n@
                    + "' rate_limit.window_seconds must be > 0"@,
            },
    {
        match self {
            ConfigError::NoChains => String::from_str("At least one chain must be configured"),
            ConfigError::DuplicateChainId(id) => {
                let d = decimal_string(*id);
                String::from_str("Duplicate chain_id ").concat(d.as_str()).concat(" in config")
            },
            ConfigError::NoEndpoints(n) => String::from_str("Chain '").concat(n.as_str()).concat(
                "' has no endpoints configured",
            ),
            ConfigError::RouteWithoutSlash(n) => String::from_str("Chain '").concat(
                n.as_str(),
            ).concat("' route must start with '/'"),
            ConfigError::AllWeightsZero(n) => String::from_str("Chain '").concat(n.as_str()).concat(
                "' uses weighted rotation but all weights are 0",
            ),
            ConfigError::HedgeDelayZero(n) => String::from_str("Chain '").concat(n.as_str()).concat(
                "' hedge.delay_ms must be > 0",
            ),
            ConfigError::HedgeMaxCountZero(n) => String::from_str("Chain '").concat(
                n.as_str(),
            ).concat("' hedge.max_count must be > 0"),
            ConfigError::HedgeTooFewEndpoints(n) => String::from_str("Chain '").concat(
                n.as_str(),
            ).concat("' uses hedging but has fewer than 2 endpoints"),
            ConfigError::RateLimitMaxRequestsZero(n) => String::from_str("Chain '").concat(
                n.as_str(),
            ).concat("' rate_limit.max_requests must be > 0"),
            ConfigError::RateLimitWindowZero(n) => String::from_str("Chain '").concat(
                n.as_str(),
            ).concat("' rate_limit.window_seconds must be > 0"),
            ConfigError::EmptyApiKey(n) => String::from_str("api_key '").concat(n.as_str()).concat(
                "' has an empty key string",
            ),
            ConfigError::DuplicateApiKey(n) => String::from_str(
                "Duplicate api key value for name '",
            ).concat(n.as_str()).concat("'"),
            ConfigError::ApiKeyRateLimitMaxRequestsZero(n) => String::from_str("api_key '").concat(
                n.as_str(),
            ).concat("' rate_limit.max_requests must be > 0"),
            ConfigError::ApiKeyRateLimitWindowZero(n) => String::from_str("api_key '").concat(
                n.as_str(),
            ).concat("' rate_limit.window_seconds must be > 0"),
        }
    }
}

/// Whether every endpoint has weight zero.
fn weights_all_zero(eps: &Vec<EndpointConfig>) -> (r: bool)
    ensures
        r == all_weights_zero(eps@),
{
    let mut i: usize = 0;
    while i < eps.len()
        invariant
            i <= eps@.len(),
            forall|k: int| 0 <= k < i ==> (#[trigger] eps@[k]).weight == 0,
        decreases eps@.len() - i,
    {
        if eps[i].weight != 0 {
            return false;
        }
        i = i + 1;
    }
    true
}

/// Checks one chain.
fn check_chain(c: &ChainConfig) -> (r: Result<(), ConfigError>)
    ensures
        match chain_fault(*c) {
            None => r is Ok,
            Some(f) => r matches Err(e) && e.reports(
                ConfigFault::Chain(0, f),
                seq![*c],
                Seq::empty(),
            ),
        },
{
    let slash = "/";
    proof {
        reveal_strlit("/");
        assert(slash@ =~= seq!['/']);
    }
    if c.endpoints.len() == 0 {
        return Err(ConfigError::NoEndpoints(c.name.clone()));
    }
    if !starts_with(c.route.as_str(), slash) {
        return Err(ConfigError::RouteWithoutSlash(c.name.clone()));
    }
    if c.rotation == RotationStrategy::Weighted && weights_all_zero(&c.endpoints) {
        return Err(ConfigError::AllWeightsZero(c.name.clone()));
    }
    if let Some(hedge) = &c.hedge {
        if hedge.delay_ms == 0 {
            return Err(ConfigError::HedgeDelayZero(c.name.clone()));
        }
        if hedge.max_count == 0 {
            return Err(ConfigError::HedgeMaxCountZero(c.name.clone()));
        }
        if c.endpoints.len() < 2 {
            return Err(ConfigError::HedgeTooFewEndpoints(c.name.clone()));
        }
    }
    if let Some(rl) = &c.rate_limit {
        if rl.max_requests == 0 {
            return Err(ConfigError::RateLimitMaxRequestsZero(c.name.clone()));
        }
        if rl.window_seconds == 0 {
            return Err(ConfigError::RateLimitWindowZero(c.name.clone()));
        }
    }
    Ok(())
}

/// Whether a chain among the first `n` has chain id `id`.
fn has_chain_id_before(chains: &Vec<ChainConfig>, n: usize, id: u64) -> (r: bool)
    requires
        n <= chains@.len(),
    ensures
        r == exists|i: int| 0 <= i < n && (#[trigger] chains@[i]).chain_id == Some(id),
{
    let mut i: usize = 0;
    while i < n
        invariant
            n <= chains@.len(),
            i <= n,
            forall|k: int| 0 <= k < i ==> (#[trigger] chains@[k]).chain_id != Some(id),
        decreases n - i,
    {
        if chains[i].chain_id == Some(id) {
            return true;
        }
        i = i + 1;
    }
    false
}

/// Whether an API key among the first `n` has the same key text as `key`.
fn has_key_before(keys: &Vec<ApiKeyConfig>, n: usize, key: &str) -> (r: bool)
    requires
        n <= keys@.len(),
    ensures
        r == exists|i: int| 0 <= i < n && (#[trigger] keys@[i]).key@ == key@,
{
    let mut i: usize = 0;
    while i < n
        invariant
            n <= keys@.len(),
            i <= n,
            forall|k: int| 0 <= k < i ==> (#[trigger] keys@[k]).key@ != key@,
        decreases n - i,
    {
        if str_eq(keys[i].key.as_str(), key) {
            return true;
        }
        i = i + 1;
    }
    false
}

/// The endpoint declares a method list, and it is empty.
pub open spec fn has_empty_methods(ep: EndpointConfig) -> bool {
    match ep.methods {
        Some(m) => m@.len() == 0,
        None => false,
    }
}

/// The (url, chain name) of each of the first `j` endpoints of chain `c`
/// whose method list is empty, in order.
pub open spec fn empty_methods_in_chain(c: ChainConfig, j: int) -> Seq<(Seq<char>, Seq<char>)>
    decreases j,
{
    if j <= 0 {
        Seq::empty()
    } else {
        let prev = empty_methods_in_chain(c, j - 1);
        if has_empty_methods(c.endpoints@[j - 1]) {
            prev.push((c.endpoints@[j - 1].url@, c.name@))
        } else {
            prev
        }
    }
}

/// The (url, chain name) of every endpoint of the first `i` chains whose
/// method list is empty, chain by chain and in endpoint order.
pub open spec fn empty_methods_upto(chains: Seq<ChainConfig>, i: int) -> Seq<(Seq<char>, Seq<char>)>
    decreases i,
{
    if i <= 0 {
        Seq::empty()
    } else {
        empty_methods_upto(chains, i - 1) + empty_methods_in_chain(
            chains[i - 1],
            chains[i - 1].endpoints@.len() as int,
        )
    }
}

/// A list of (url, chain name) pairs as plain text.
pub open spec fn entry_texts(r: Seq<(String, String)>) -> Seq<(Seq<char>, Seq<char>)> {
    r.map_values(|e: (String, String)| (e.0@, e.1@))
}

impl Config {
    /// Checks the chains: at least one, no chain id twice, and each chain
    /// sound; the first problem found is reported.
    pub fn validate_chains(&self) -> (r: Result<(), ConfigError>)
        ensures
            match chains_fault(self.chains@) {
                None => r is Ok,
                Some(f) => r matches Err(e) && e.reports(f, self.chains@, self.server.api_keys@),
            },
    {
        let chains = &self.chains;
        if chains.len() == 0 {
            return Err(ConfigError::NoChains);
        }
        let mut i: usize = 0;
        while i < chains.len()
            invariant
                chains == &self.chains,
                i <= chains@.len(),
                duplicate_chain_id(chains@, i as int) is None,
            decreases chains@.len() - i,
        {
            if let Some(id) = chains[i].chain_id {
                if has_chain_id_before(chains, i, id) {
                    assert(duplicate_chain_id(chains@, i + 1) == Some(id));
                    proof {
                        lemma_duplicate_chain_id_stable(chains@, i + 1, chains@.len() as int);
                    }
                    return Err(ConfigError::DuplicateChainId(id));
                }
            }
            i = i + 1;
        }
        let mut j: usize = 0;
        while j < chains.len()
            invariant
                chains == &self.chains,
                j <= chains@.len(),
                duplicate_chain_id(chains@, chains@.len() as int) is None,
                chains@.len() > 0,
                first_chain_fault(chains@, j as int) is None,
            decreases chains@.len() - j,
        {
            match check_chain(&chains[j]) {
                Err(e) => {
                    proof {
                        lemma_first_chain_fault_stable(chains@, j + 1, chains@.len() as int);
                    }
                    return Err(e);
                },
                Ok(()) => {},
            }
            j = j + 1;
        }
        Ok(())
    }

    /// Checks the API keys: none blank, none repeated, and no rate limit of
    /// zero; the first problem found is reported.
    pub fn validate_api_keys(&self) -> (r: Result<(), ConfigError>)
        ensures
            match keys_fault(self.server.api_keys@) {
                None => r is Ok,
                Some(f) => r matches Err(e) && e.reports(f, self.chains@, self.server.api_keys@),
            },
    {
        let keys = &self.server.api_keys;
        let mut j: usize = 0;
        while j < keys.len()
            invariant
                keys == &self.server.api_keys,
                j <= keys@.len(),
                first_key_fault(keys@, j as int) is None,
            decreases keys@.len() - j,
        {
            let ak = &keys[j];
            let ghost fault = key_fault(keys@, j as int);
            let mut err: Option<ConfigError> = None;
            if str_is_blank(ak.key.as_str()) {
                err = Some(ConfigError::EmptyApiKey(ak.name.clone()));
            } else if has_key_before(keys, j, ak.key.as_str()) {
                err = Some(ConfigError::DuplicateApiKey(ak.name.clone()));
            } else if let Some(rl) = &ak.rate_limit {
                if rl.max_requests == 0 {
                    err = Some(ConfigError::ApiKeyRateLimitMaxRequestsZero(ak.name.clone()));
                } else if rl.window_seconds == 0 {
                    err = Some(ConfigError::ApiKeyRateLimitWindowZero(ak.name.clone()));
                }
            }
            match err {
                Some(e) => {
                    proof {
                        assert(first_key_fault(keys@, j + 1) == Some((j as int, fault.unwrap())));
                        lemma_first_key_fault_stable(keys@, j + 1, keys@.len() as int);
                    }
                    return Err(e);
                },
                None => {},
            }
            j = j + 1;
        }
        Ok(())
    }

    /// Checks a whole configuration: chains first, then API keys.
    pub fn validate(&self) -> (r: Result<(), ConfigError>)
        ensures
            match config_fault(*self) {
                None => r is Ok,
                Some(f) => r matches Err(e) && e.reports(f, self.chains@, self.server.api_keys@),
            },
    {
        match self.validate_chains() {
            Err(e) => Err(e),
            Ok(()) => self.validate_api_keys(),
        }
    }

    /// `e` names an endpoint of this configuration whose method list is
    /// empty, with the name of its chain.
    pub open spec fn is_empty_methods_entry(&self, e: (String, String)) -> bool {
        exists|a: int, b: int|
            0 <= a < self.chains@.len() && 0 <= b < self.chains@[a].endpoints@.len()
                && e.0@ == (#[trigger] self.chains@[a].endpoints@[b]).url@
                && e.1@ == self.chains@[a].name@
                && has_empty_methods(self.chains@[a].endpoints@[b])
    }

    /// The endpoints, with their chain names, whose method list is empty:
    /// such endpoints never receive a request.
    pub fn endpoints_with_empty_methods(&self) -> (r: Vec<(String, String)>)
        ensures
            entry_texts(r@) == empty_methods_upto(self.chains@, self.chains@.len() as int),
            forall|k: int| 0 <= k < r@.len() ==> self.is_empty_methods_entry(#[trigger] r@[k]),
    {
        let mut r: Vec<(String, String)> = Vec::new();
        assert(entry_texts(r@) =~= empty_methods_upto(self.chains@, 0));
        let mut i: usize = 0;
        while i < self.chains.len()
            invariant
                i <= self.chains@.len(),
                entry_texts(r@) == empty_methods_upto(self.chains@, i as int),
                forall|k: int| 0 <= k < r@.len() ==> self.is_empty_methods_entry(#[trigger] r@[k]),
            decreases self.chains@.len() - i,
        {
            let chain = &self.chains[i];
            let mut j: usize = 0;
            assert(empty_methods_upto(self.chains@, i as int) + empty_methods_in_chain(*chain, 0)
                =~= empty_methods_upto(self.chains@, i as int));
            while j < chain.endpoints.len()
                invariant
                    i < self.chains@.len(),
                    chain == &self.chains@[i as int],
                    j <= chain.endpoints@.len(),
                    entry_texts(r@) == empty_methods_upto(self.chains@, i as int)
                        + empty_methods_in_chain(*chain, j as int),
                    forall|k: int| 0 <= k < r@.len() ==> self.is_empty_methods_entry(#[trigger] r@[k]),
                decreases chain.endpoints@.len() - j,
            {
                let ep = &chain.endpoints[j];
                if let Some(m) = &ep.methods {
                    if m.len() == 0 {
                        let ghost old_r = r@;
                        let entry = (ep.url.clone(), chain.name.clone());
                        assert(self.is_empty_methods_entry(entry)) by {
                            assert(self.chains@[i as int].endpoints@[j as int] == *ep);
                        }
                        r.push(entry);
                        assert(entry_texts(r@) =~= entry_texts(old_r).push(
                            (ep.url@, chain.name@),
                        ));
                        assert forall|k: int| 0 <= k < r@.len() implies self.is_empty_methods_entry(
                            #[trigger] r@[k],
                        ) by {
                            if k < old_r.len() {
                                assert(r@[k] == old_r[k]);
                            }
                        }
                    }
                }
                j = j + 1;
            }
            i = i + 1;
        }
        r
    }
}

proof fn lemma_first_chain_fault_finds(chains: Seq<ChainConfig>, n: int, i: int)
    requires
        0 <= i < n <= chains.len(),
        chain_fault(chains[i]) is Some,
        forall|k: int| 0 <= k < i ==> (#[trigger] chain_fault(chains[k])) is None,
    ensures
        first_chain_fault(chains, n) == Some((i, chain_fault(chains[i])->0)),
    decreases n,
{
    if n - 1 > i {
        lemma_first_chain_fault_finds(chains, n - 1, i);
    } else {
        lemma_first_chain_fault_clean(chains, i);
    }
}

proof fn lemma_first_chain_fault_clean(chains: Seq<ChainConfig>, n: int)
    requires
        0 <= n <= chains.len(),
        forall|k: int| 0 <= k < n ==> (#[trigger] chain_fault(chains[k])) is None,
    ensures
        first_chain_fault(chains, n) is None,
    decreases n,
{
    if n > 0 {
        lemma_first_chain_fault_clean(chains, n - 1);
    }
}

proof fn lemma_first_chain_fault_none(chains: Seq<ChainConfig>, n: int, i: int)
    requires
        0 <= i < n <= chains.len(),
        first_chain_fault(chains, n) is None,
    ensures
        chain_fault(chains[i]) is None,
    decreases n,
{
    if n - 1 > i {
        lemma_first_chain_fault_none(chains, n - 1, i);
    }
}

/// Validation looks at every chain, in order: a configuration passes only
/// if every chain has endpoints, a route starting with '/', and no other
/// fault; and when chain ids are distinct, the chain reported is the first
/// faulty one, with its own fault, however far down the list it is.
pub proof fn lemma_validation_checks_every_chain(c: Config)
    ensures
        config_fault(c) is None ==> forall|i: int|
            0 <= i < c.chains@.len() ==> {
                &&& (#[trigger] c.chains@[i]).endpoints@.len() > 0
                &&& has_prefix(c.chains@[i].route@, seq!['/'])
                &&& chain_fault(c.chains@[i]) is None
            },
        forall|i: int|
            0 <= i < c.chains@.len() && (#[trigger] chain_fault(c.chains@[i])) is Some && (forall|k: int|
                0 <= k < i ==> (#[trigger] chain_fault(c.chains@[k])) is None) && duplicate_chain_id(
                c.chains@,
                c.chains@.len() as int,
            ) is None ==> config_fault(c) == Some(
                ConfigFault::Chain(i, chain_fault(c.chains@[i])->0),
            ),
{
    let chains = c.chains@;
    let n = chains.len() as int;
    if config_fault(c) is None {
        assert forall|i: int| 0 <= i < n implies {
            &&& (#[trigger] chains[i]).endpoints@.len() > 0
            &&& has_prefix(chains[i].route@, seq!['/'])
            &&& chain_fault(chains[i]) is None
        } by {
            lemma_first_chain_fault_none(chains, n, i);
        }
    }
    assert forall|i: int|
        0 <= i < n && (#[trigger] chain_fault(chains[i])) is Some && (forall|k: int|
            0 <= k < i ==> (#[trigger] chain_fault(chains[k])) is None) && duplicate_chain_id(
            chains,
            n,
        ) is None implies config_fault(c) == Some(ConfigFault::Chain(i, chain_fault(chains[i])->0)) by {
        lemma_first_chain_fault_finds(chains, n, i);
    }
}

proof fn lemma_duplicate_chain_id_stable(chains: Seq<ChainConfig>, k: int, n: int)
    requires
        0 <= k <= n,
        duplicate_chain_id(chains, k) is Some,
    ensures
        duplicate_chain_id(chains, n) == duplicate_chain_id(chains, k),
    decreases n - k,
{
    if k < n {
        lemma_duplicate_chain_id_stable(chains, k, n - 1);
    }
}

proof fn lemma_first_chain_fault_stable(chains: Seq<ChainConfig>, k: int, n: int)
    requires
        0 <= k <= n,
        first_chain_fault(chains, k) is Some,
    ensures
        first_chain_fault(chains, n) == first_chain_fault(chains, k),
    decreases n - k,
{
    if k < n {
        lemma_first_chain_fault_stable(chains, k, n - 1);
    }
}

proof fn lemma_first_key_fault_stable(keys: Seq<ApiKeyConfig>, k: int, n: int)
    requires
        0 <= k <= n,
        first_key_fault(keys, k) is Some,
    ensures
        first_key_fault(keys, n) == first_key_fault(keys, k),
    decreases n - k,
{
    if k < n {
        lemma_first_key_fault_stable(keys, k, n - 1);
    }
}

} // verus!
