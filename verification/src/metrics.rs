//! Per-chain request counters. Counters wrap as unsigned 64-bit values.
use crate::health::state::bumped;
use vstd::arithmetic::div_mod::{lemma_add_mod_noop, lemma_small_mod};
use vstd::prelude::*;
use vstd::string::*;

verus! {

/// Request, cache and WebSocket counters of one chain.
#[derive(Debug, Clone, Copy)]
pub struct ChainMetrics {
    pub total_requests: u64,
    pub successful_requests: u64,
    pub failed_requests: u64,
    pub cache_hits: u64,
    pub cache_misses: u64,
    pub rate_limited_requests: u64,
    pub upstream_throttled: u64,
    pub hedged_requests: u64,
    pub ws_connections_total: u64,
    pub ws_active_connections: u64,
    pub ws_messages_relayed: u64,
    pub ws_reconnections: u64,
}

/// The counters of a chain at one moment, with endpoint counts.
#[derive(Debug)]
pub struct ChainMetricsSnapshot {
    pub chain: String,
    pub total_requests: u64,
    pub successful_requests: u64,
    pub failed_requests: u64,
    pub cache_hits: u64,
    pub cache_misses: u64,
    pub rate_limited_requests: u64,
    pub upstream_throttled: u64,
    pub hedged_requests: u64,
    pub ws_connections_total: u64,
    pub ws_active_connections: u64,
    pub ws_messages_relayed: u64,
    pub ws_reconnections: u64,
    pub active_endpoints: usize,
    pub total_endpoints: usize,
}

/// A counter decreased by one, wrapping below zero.
pub open spec fn dropped(x: u64) -> u64 {
    if x == 0 {
        u64::MAX
    } else {
        (x - 1) as u64
    }
}

impl Default for ChainMetrics {
    fn default() -> (r: Self)
        ensures
            r == ChainMetrics::zero(),
    {
        Self::new()
    }
}

impl ChainMetrics {
    /// All counters at zero.
    pub open spec fn zero() -> ChainMetrics {
        ChainMetrics {
            total_requests: 0,
            successful_requests: 0,
            failed_requests: 0,
            cache_hits: 0,
            cache_misses: 0,
            rate_limited_requests: 0,
            upstream_throttled: 0,
            hedged_requests: 0,
            ws_connections_total: 0,
            ws_active_connections: 0,
            ws_messages_relayed: 0,
            ws_reconnections: 0,
        }
    }

    /// Fresh counters, all zero.
    pub fn new() -> (r: Self)
        ensures
            r == ChainMetrics::zero(),
    {
        ChainMetrics {
            total_requests: 0,
            successful_requests: 0,
            failed_requests: 0,
            cache_hits: 0,
            cache_misses: 0,
            rate_limited_requests: 0,
            upstream_throttled: 0,
            hedged_requests: 0,
            ws_connections_total: 0,
            ws_active_connections: 0,
            ws_messages_relayed: 0,
            ws_reconnections: 0,
        }
    }

    /// Counts `count` incoming requests.
    pub fn record_requests(&mut self, count: u64)
        ensures
            *final(self) == (ChainMetrics {
                total_requests: bumped(old(self).total_requests, count),
                ..*old(self)
            }),
    {
        self.total_requests = self.total_requests.wrapping_add(count);
    }

    /// Counts `count` successful requests.
    pub fn record_successes(&mut self, count: u64)
        ensures
            *final(self) == (ChainMetrics {
                successful_requests: bumped(old(self).successful_requests, count),
                ..*old(self)
            }),
    {
        self.successful_requests = self.successful_requests.wrapping_add(count);
    }

    /// Counts `count` failed requests.
    pub fn record_failures(&mut self, count: u64)
        ensures
            *final(self) == (ChainMetrics {
                failed_requests: bumped(old(self).failed_requests, count),
                ..*old(self)
            }),
    {
        self.failed_requests = self.failed_requests.wrapping_add(count);
    }

    /// Counts a cache hit.
    pub fn record_cache_hit(&mut self)
        ensures
            *final(self) == (ChainMetrics { cache_hits: bumped(old(self).cache_hits, 1), ..*old(self) }),
    {
        self.cache_hits = self.cache_hits.wrapping_add(1);
    }

    /// Counts a cache miss.
    pub fn record_cache_miss(&mut self)
        ensures
            *final(self) == (ChainMetrics {
                cache_misses: bumped(old(self).cache_misses, 1),
                ..*old(self)
            }),
    {
        self.cache_misses = self.cache_misses.wrapping_add(1);
    }

    /// Counts a request refused by the chain's rate limit.
    pub fn record_rate_limited(&mut self)
        ensures
            *final(self) == (ChainMetrics {
                rate_limited_requests: bumped(old(self).rate_limited_requests, 1),
                ..*old(self)
            }),
    {
        self.rate_limited_requests = self.rate_limited_requests.wrapping_add(1);
    }

    /// Counts an upstream 429.
    pub fn record_upstream_throttled(&mut self)
        ensures
            *final(self) == (ChainMetrics {
                upstream_throttled: bumped(old(self).upstream_throttled, 1),
                ..*old(self)
            }),
    {
        self.upstream_throttled = self.upstream_throttled.wrapping_add(1);
    }

    /// Counts `count` hedged requests fired.
    pub fn record_hedged_requests(&mut self, count: u64)
        ensures
            *final(self) == (ChainMetrics {
                hedged_requests: bumped(old(self).hedged_requests, count),
                ..*old(self)
            }),
    {
        self.hedged_requests = self.hedged_requests.wrapping_add(count);
    }

    /// Counts a WebSocket client connection that opens.
    pub fn record_ws_connection_opened(&mut self)
        ensures
            *final(self) == (ChainMetrics {
                ws_connections_total: bumped(old(self).ws_connections_total, 1),
                ws_active_connections: bumped(old(self).ws_active_connections, 1),
                ..*old(self)
            }),
    {
        self.ws_connections_total = self.ws_connections_total.wrapping_add(1);
        self.ws_active_connections = self.ws_active_connections.wrapping_add(1);
    }

    /// Counts a WebSocket client connection that closes.
    pub fn record_ws_connection_closed(&mut self)
        ensures
            *final(self) == (ChainMetrics {
                ws_active_connections: dropped(old(self).ws_active_connections),
                ..*old(self)
            }),
    {
        self.ws_active_connections = self.ws_active_connections.wrapping_sub(1);
    }

    /// Counts a relayed WebSocket message.
    pub fn record_ws_message_relayed(&mut self)
        ensures
            *final(self) == (ChainMetrics {
                ws_messages_relayed: bumped(old(self).ws_messages_relayed, 1),
                ..*old(self)
            }),
    {
        self.ws_messages_relayed = self.ws_messages_relayed.wrapping_add(1);
    }

    /// Counts a WebSocket upstream reconnection.
    pub fn record_ws_reconnection(&mut self)
        ensures
            *final(self) == (ChainMetrics {
                ws_reconnections: bumped(old(self).ws_reconnections, 1),
                ..*old(self)
            }),
    {
        self.ws_reconnections = self.ws_reconnections.wrapping_add(1);
    }

    /// The counters with the chain name and endpoint counts.
    pub fn snapshot(&self, name: &str, active_endpoints: usize, total_endpoints: usize) -> (r:
        ChainMetricsSnapshot)
        ensures
            r.chain@ == name@,
            r.total_requests == self.total_requests,
            r.successful_requests == self.successful_requests,
            r.failed_requests == self.failed_requests,
            r.cache_hits == self.cache_hits,
            r.cache_misses == self.cache_misses,
            r.rate_limited_requests == self.rate_limited_requests,
            r.upstream_throttled == self.upstream_throttled,
            r.hedged_requests == self.hedged_requests,
            r.ws_connections_total == self.ws_connections_total,
            r.ws_active_connections == self.ws_active_connections,
            r.ws_messages_relayed == self.ws_messages_relayed,
            r.ws_reconnections == self.ws_reconnections,
            r.active_endpoints == active_endpoints,
            r.total_endpoints == total_endpoints,
    {
        ChainMetricsSnapshot {
            chain: String::from_str(name),
            total_requests: self.total_requests,
            successful_requests: self.successful_requests,
            failed_requests: self.failed_requests,
            cache_hits: self.cache_hits,
            cache_misses: self.cache_misses,
            rate_limited_requests: self.rate_limited_requests,
            upstream_throttled: self.upstream_throttled,
            hedged_requests: self.hedged_requests,
            ws_connections_total: self.ws_connections_total,
            ws_active_connections: self.ws_active_connections,
            ws_messages_relayed: self.ws_messages_relayed,
            ws_reconnections: self.ws_reconnections,
            active_endpoints,
            total_endpoints,
        }
    }
}

/// The counters after `n` cache hits are recorded, one call at a time.
pub open spec fn after_cache_hits(m: ChainMetrics, n: nat) -> ChainMetrics
    decreases n,
{
    if n == 0 {
        m
    } else {
        let prev = after_cache_hits(m, (n - 1) as nat);
        ChainMetrics { cache_hits: bumped(prev.cache_hits, 1), ..prev }
    }
}

/// `n` recorded cache hits add `n` to the hit count (which wraps at 64
/// bits, so below the wrap it is exactly `n` more) and change no other
/// counter.
pub proof fn lemma_cache_hits_add_up(m: ChainMetrics, n: nat)
    ensures
        after_cache_hits(m, n) == (ChainMetrics {
            cache_hits: ((m.cache_hits + n) % 0x1_0000_0000_0000_0000int) as u64,
            ..m
        }),
        m.cache_hits + n <= u64::MAX ==> after_cache_hits(m, n).cache_hits == m.cache_hits + n,
    decreases n,
{
    let wrap: int = 0x1_0000_0000_0000_0000int;
    if n == 0 {
        lemma_small_mod(m.cache_hits as nat, wrap as nat);
    } else {
        lemma_cache_hits_add_up(m, (n - 1) as nat);
        lemma_add_mod_noop(m.cache_hits + n - 1, 1, wrap);
        lemma_small_mod(1, wrap as nat);
        assert(((m.cache_hits + n - 1) % wrap + 1) % wrap == (m.cache_hits + n) % wrap);
    }
    if m.cache_hits + n <= u64::MAX {
        lemma_small_mod((m.cache_hits + n) as nat, wrap as nat);
    }
}

} // verus!
